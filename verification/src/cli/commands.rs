//! Reading the command line.

use vstd::prelude::*;
use crate::cli::args::{Args, ArgsModel, Mode};
use crate::error::{is_usage_error, usage, usage_error, AsmodeusError};
use crate::text::{
    chars_of, eq_str, join, join_from_exec, starts_with, starts_with_char, string_of,
    string_views, views,
};

verus! {

/// The command line before any argument is read.
pub open spec fn default_model() -> ArgsModel {
    ArgsModel {
        mode: Mode::Run,
        input_file: None,
        output_file: None,
        verbose: false,
        debug: false,
        extended: false,
        watch: false,
    }
}

/// What the first argument (after the program name) selects, and the index
/// of the argument where options begin.
pub open spec fn first_argument(args: Seq<Seq<char>>) -> (ArgsModel, nat) {
    let a = args[1];
    let m = default_model();
    if a == "run"@ {
        (m, 2)
    } else if a == "assemble"@ {
        (ArgsModel { mode: Mode::Assemble, ..m }, 2)
    } else if a == "disassemble"@ {
        (ArgsModel { mode: Mode::Disassemble, ..m }, 2)
    } else if a == "debug"@ {
        (ArgsModel { mode: Mode::Debug, ..m }, 2)
    } else if a == "interactive"@ || a == "live"@ {
        (ArgsModel { mode: Mode::Interactive, ..m }, 2)
    } else if a == "examples"@ {
        (
            ArgsModel {
                mode: Mode::Examples,
                input_file: if args.len() > 2 {
                    Some(join(args.skip(2), seq![' ']))
                } else {
                    None
                },
                ..m
            },
            args.len(),
        )
    } else if a == "--help"@ || a == "-h"@ {
        (ArgsModel { mode: Mode::Help, ..m }, 2)
    } else if !starts_with(a, seq!['-']) {
        (ArgsModel { input_file: Some(a), ..m }, 2)
    } else {
        (m, 1)
    }
}

/// The options from argument `i` on, read into `m`; an error message for
/// an unknown option, a missing output file or a second input file.
pub open spec fn parse_options(args: Seq<Seq<char>>, i: nat, m: ArgsModel) -> Result<
    ArgsModel,
    Seq<char>,
>
    decreases args.len() - i,
{
    if i >= args.len() {
        Ok(m)
    } else {
        let a = args[i as int];
        if a == "--help"@ || a == "-h"@ {
            Ok(ArgsModel { mode: Mode::Help, ..m })
        } else if a == "--assemble"@ || a == "-a"@ {
            parse_options(args, i + 1, ArgsModel { mode: Mode::Assemble, ..m })
        } else if a == "--disassemble"@ || a == "-d"@ {
            parse_options(args, i + 1, ArgsModel { mode: Mode::Disassemble, ..m })
        } else if a == "--run"@ || a == "-r"@ {
            parse_options(args, i + 1, ArgsModel { mode: Mode::Run, ..m })
        } else if a == "--output"@ || a == "-o"@ {
            if i + 1 < args.len() {
                parse_options(args, i + 2, ArgsModel { output_file: Some(args[i + 1int]), ..m })
            } else {
                Err("Missing output file"@)
            }
        } else if a == "--verbose"@ || a == "-v"@ {
            parse_options(args, i + 1, ArgsModel { verbose: true, ..m })
        } else if a == "--debug"@ || a == "--debug-mode"@ {
            parse_options(args, i + 1, ArgsModel { debug: true, ..m })
        } else if a == "--extended"@ || a == "-e"@ {
            parse_options(args, i + 1, ArgsModel { extended: true, ..m })
        } else if a == "--watch"@ || a == "-w"@ {
            parse_options(args, i + 1, ArgsModel { watch: true, ..m })
        } else if starts_with(a, seq!['-']) {
            Err("Unknown option: "@ + a)
        } else if m.input_file is None {
            parse_options(args, i + 1, ArgsModel { input_file: Some(a), ..m })
        } else {
            Err("Multiple input files specified"@)
        }
    }
}

/// The command line that the arguments `args` (the program name first)
/// denote, or the message of the usage error they cause.
pub open spec fn parsed_args(args: Seq<Seq<char>>) -> Result<ArgsModel, Seq<char>> {
    if args.len() < 2 {
        Err("No arguments provided"@)
    } else {
        let (m, i) = first_argument(args);
        parse_options(args, i, m)
    }
}

/// An owned copy of a string.
fn copy_string(s: &String) -> (r: String)
    ensures
        r@ == s@,
{
    s.clone()
}

/// Reads the command line `args` (as the process receives it, the program
/// name first): a subcommand or an input file first, then options.
pub fn parse_args(args: &Vec<String>) -> (r: Result<Args, AsmodeusError>)
    ensures
        match parsed_args(string_views(args@)) {
            Ok(m) => r matches Ok(a) && a.model() == m,
            Err(msg) => r matches Err(e) && is_usage_error(e, msg),
        },
{
    let ghost av = string_views(args@);
    if args.len() < 2 {
        return Err(usage("No arguments provided"));
    }
    let mut mode = Mode::Run;
    let mut input_file: Option<String> = None;
    let mut output_file: Option<String> = None;
    let mut verbose = false;
    let mut debug = false;
    let mut extended = false;
    let mut watch = false;
    let mut i: usize;
    let first = args[1].as_str();
    if eq_str(first, "run") {
        mode = Mode::Run;
        i = 2;
    } else if eq_str(first, "assemble") {
        mode = Mode::Assemble;
        i = 2;
    } else if eq_str(first, "disassemble") {
        mode = Mode::Disassemble;
        i = 2;
    } else if eq_str(first, "debug") {
        mode = Mode::Debug;
        i = 2;
    } else if eq_str(first, "interactive") || eq_str(first, "live") {
        mode = Mode::Interactive;
        i = 2;
    } else if eq_str(first, "examples") {
        mode = Mode::Examples;
        if args.len() > 2 {
            let mut words: Vec<Vec<char>> = Vec::new();
            let mut k: usize = 0;
            while k < args.len()
                invariant
                    k <= args.len(),
                    av == string_views(args@),
                    views(words@) == av.take(k as int),
                decreases args.len() - k,
            {
                assert(av[k as int] == args@[k as int]@);
                let ghost w0 = views(words@);
                words.push(chars_of(args[k].as_str()));
                assert(views(words@) =~= w0.push(av[k as int]));
                assert(av.take(k + 1) =~= av.take(k as int).push(av[k as int]));
                k += 1;
                assert(views(words@) =~= av.take(k as int));
            }
            assert(av.take(args.len() as int) =~= av);
            let sep = vec![' '];
            assert(sep@ =~= seq![' ']);
            let joined = join_from_exec(&words, 2, &sep);
            input_file = Some(string_of(&joined));
        }
        i = args.len();
    } else if eq_str(first, "--help") || eq_str(first, "-h") {
        mode = Mode::Help;
        i = 2;
    } else if !starts_with_char(first, '-') {
        mode = Mode::Run;
        input_file = Some(copy_string(&args[1]));
        i = 2;
    } else {
        i = 1;
    }
    assert(av[1] == first@);
    let ghost m0 = first_argument(av).0;
    assert(ArgsModel {
        mode,
        input_file: crate::cli::args::opt_view(input_file),
        output_file: crate::cli::args::opt_view(output_file),
        verbose,
        debug,
        extended,
        watch,
    } == m0);
    while i < args.len()
        invariant
            i <= args.len(),
            av == string_views(args@),
            parsed_args(av) == parse_options(
                av,
                i as nat,
                ArgsModel {
                    mode,
                    input_file: crate::cli::args::opt_view(input_file),
                    output_file: crate::cli::args::opt_view(output_file),
                    verbose,
                    debug,
                    extended,
                    watch,
                },
            ),
        decreases args.len() - i,
    {
        let a = args[i].as_str();
        if eq_str(a, "--help") || eq_str(a, "-h") {
            mode = Mode::Help;
            return Ok(Args { mode, input_file, output_file, verbose, debug, extended, watch });
        } else if eq_str(a, "--assemble") || eq_str(a, "-a") {
            mode = Mode::Assemble;
        } else if eq_str(a, "--disassemble") || eq_str(a, "-d") {
            mode = Mode::Disassemble;
        } else if eq_str(a, "--run") || eq_str(a, "-r") {
            mode = Mode::Run;
        } else if eq_str(a, "--output") || eq_str(a, "-o") {
            i += 1;
            if i < args.len() {
                output_file = Some(copy_string(&args[i]));
            } else {
                return Err(usage("Missing output file"));
            }
        } else if eq_str(a, "--verbose") || eq_str(a, "-v") {
            verbose = true;
        } else if eq_str(a, "--debug") || eq_str(a, "--debug-mode") {
            debug = true;
        } else if eq_str(a, "--extended") || eq_str(a, "-e") {
            extended = true;
        } else if eq_str(a, "--watch") || eq_str(a, "-w") {
            watch = true;
        } else if starts_with_char(a, '-') {
            return Err(usage_error("Unknown option: ", a));
        } else {
            if input_file.is_none() {
                input_file = Some(copy_string(&args[i]));
            } else {
                return Err(usage("Multiple input files specified"));
            }
        }
        i += 1;
    }
    Ok(Args { mode, input_file, output_file, verbose, debug, extended, watch })
}


/// The words that select a mode when they come first on the command line.
pub open spec fn is_subcommand(a: Seq<char>) -> bool {
    ||| a == "run"@
    ||| a == "assemble"@
    ||| a == "disassemble"@
    ||| a == "debug"@
    ||| a == "interactive"@
    ||| a == "live"@
    ||| a == "examples"@
}

/// Reading options gives the same result on two command lines that agree
/// from argument `i` on, the second one argument longer in front.
proof fn lemma_options_shift(a: Seq<Seq<char>>, b: Seq<Seq<char>>, i: nat, m: ArgsModel)
    requires
        a.len() + 1 == b.len(),
        i <= a.len(),
        forall|j: int| i <= j < a.len() ==> a[j] == b[j + 1],
    ensures
        parse_options(a, i, m) == parse_options(b, i + 1, m),
    decreases a.len() - i,
{
    if i < a.len() {
        let x = a[i as int];
        assert(b[i + 1int] == x);
        if x == "--help"@ || x == "-h"@ {
        } else if x == "--assemble"@ || x == "-a"@ {
            lemma_options_shift(a, b, i + 1, ArgsModel { mode: Mode::Assemble, ..m });
        } else if x == "--disassemble"@ || x == "-d"@ {
            lemma_options_shift(a, b, i + 1, ArgsModel { mode: Mode::Disassemble, ..m });
        } else if x == "--run"@ || x == "-r"@ {
            lemma_options_shift(a, b, i + 1, ArgsModel { mode: Mode::Run, ..m });
        } else if x == "--output"@ || x == "-o"@ {
            if i + 1 < a.len() {
                assert(b[i + 2int] == a[i + 1int]);
                lemma_options_shift(a, b, i + 2, ArgsModel { output_file: Some(a[i + 1int]), ..m });
            }
        } else if x == "--verbose"@ || x == "-v"@ {
            lemma_options_shift(a, b, i + 1, ArgsModel { verbose: true, ..m });
        } else if x == "--debug"@ || x == "--debug-mode"@ {
            lemma_options_shift(a, b, i + 1, ArgsModel { debug: true, ..m });
        } else if x == "--extended"@ || x == "-e"@ {
            lemma_options_shift(a, b, i + 1, ArgsModel { extended: true, ..m });
        } else if x == "--watch"@ || x == "-w"@ {
            lemma_options_shift(a, b, i + 1, ArgsModel { watch: true, ..m });
        } else if starts_with(x, seq!['-']) {
        } else if m.input_file is None {
            lemma_options_shift(a, b, i + 1, ArgsModel { input_file: Some(x), ..m });
        }
    }
}

/// A text that begins with `-` starts with `-`.
proof fn lemma_dash_start(x: Seq<char>)
    requires
        x.len() > 0,
        x[0] == '-',
    ensures
        starts_with(x, seq!['-']),
{
    assert(x.subrange(0, 1) =~= seq!['-']);
}

/// `asmod FILE ...` is the same as `asmod run FILE ...`: a first argument
/// that is neither a subcommand nor an option is the input file of the run
/// mode, and the arguments after it are read alike.
pub proof fn law_run_is_default(program: Seq<char>, file: Seq<char>, rest: Seq<Seq<char>>)
    requires
        !starts_with(file, seq!['-']),
        !is_subcommand(file),
    ensures
        parsed_args(seq![program, file] + rest) == parsed_args(
            seq![program, "run"@, file] + rest,
        ),
{
    reveal_strlit("--help");
    lemma_dash_start("--help"@);
    reveal_strlit("-h");
    lemma_dash_start("-h"@);
    reveal_strlit("--assemble");
    lemma_dash_start("--assemble"@);
    reveal_strlit("-a");
    lemma_dash_start("-a"@);
    reveal_strlit("--disassemble");
    lemma_dash_start("--disassemble"@);
    reveal_strlit("-d");
    lemma_dash_start("-d"@);
    reveal_strlit("--run");
    lemma_dash_start("--run"@);
    reveal_strlit("-r");
    lemma_dash_start("-r"@);
    reveal_strlit("--output");
    lemma_dash_start("--output"@);
    reveal_strlit("-o");
    lemma_dash_start("-o"@);
    reveal_strlit("--verbose");
    lemma_dash_start("--verbose"@);
    reveal_strlit("-v");
    lemma_dash_start("-v"@);
    reveal_strlit("--debug");
    lemma_dash_start("--debug"@);
    reveal_strlit("--debug-mode");
    lemma_dash_start("--debug-mode"@);
    reveal_strlit("--extended");
    lemma_dash_start("--extended"@);
    reveal_strlit("-e");
    lemma_dash_start("-e"@);
    reveal_strlit("--watch");
    lemma_dash_start("--watch"@);
    reveal_strlit("-w");
    lemma_dash_start("-w"@);
    let a = seq![program, file] + rest;
    let b = seq![program, "run"@, file] + rest;
    assert(a[1] == file);
    assert(b[1] == "run"@);
    assert(b[2] == file);
    let m = ArgsModel { input_file: Some(file), ..default_model() };
    assert(first_argument(a) == (m, 2nat));
    assert(parse_options(b, 2, default_model()) == parse_options(b, 3, m));
    lemma_options_shift(a, b, 2, m);
}

} // verus!

verus! {

/// Whether `long` and `short` are the two spellings of one option.
pub open spec fn option_spellings(long: Seq<char>, short: Seq<char>) -> bool {
    ||| long == "--help"@ && short == "-h"@
    ||| long == "--assemble"@ && short == "-a"@
    ||| long == "--disassemble"@ && short == "-d"@
    ||| long == "--run"@ && short == "-r"@
    ||| long == "--output"@ && short == "-o"@
    ||| long == "--verbose"@ && short == "-v"@
    ||| long == "--debug"@ && short == "--debug-mode"@
    ||| long == "--extended"@ && short == "-e"@
    ||| long == "--watch"@ && short == "-w"@
}

/// Whether `a` is the option that takes the output file as the next
/// argument.
pub open spec fn is_output_option(a: Seq<char>) -> bool {
    a == "--output"@ || a == "-o"@
}

/// The spellings of the options.
pub open spec fn option_names() -> Seq<Seq<char>> {
    seq![
        "--help"@, "-h"@, "--assemble"@, "-a"@, "--disassemble"@, "-d"@, "--run"@, "-r"@,
        "--output"@, "-o"@, "--verbose"@, "-v"@, "--debug"@, "--debug-mode"@, "--extended"@,
        "-e"@, "--watch"@, "-w"@,
    ]
}

/// The option strings, each starting with `-`, and no two the same unless
/// they are spelt alike.
proof fn lemma_option_literals()
    ensures
        forall|i: int, j: int|
            0 <= i < option_names().len() && 0 <= j < option_names().len() && i != j
                ==> #[trigger] option_names()[i] != #[trigger] option_names()[j],
        option_names()[0] == "--help"@,
        option_names()[1] == "-h"@,
        option_names()[2] == "--assemble"@,
        option_names()[3] == "-a"@,
        option_names()[4] == "--disassemble"@,
        option_names()[5] == "-d"@,
        option_names()[6] == "--run"@,
        option_names()[7] == "-r"@,
        option_names()[8] == "--output"@,
        option_names()[9] == "-o"@,
        option_names()[10] == "--verbose"@,
        option_names()[11] == "-v"@,
        option_names()[12] == "--debug"@,
        option_names()[13] == "--debug-mode"@,
        option_names()[14] == "--extended"@,
        option_names()[15] == "-e"@,
        option_names()[16] == "--watch"@,
        option_names()[17] == "-w"@,
        starts_with("--help"@, seq!['-']),
        starts_with("-h"@, seq!['-']),
        starts_with("--assemble"@, seq!['-']),
        starts_with("-a"@, seq!['-']),
        starts_with("--disassemble"@, seq!['-']),
        starts_with("-d"@, seq!['-']),
        starts_with("--run"@, seq!['-']),
        starts_with("-r"@, seq!['-']),
        starts_with("--output"@, seq!['-']),
        starts_with("-o"@, seq!['-']),
        starts_with("--verbose"@, seq!['-']),
        starts_with("-v"@, seq!['-']),
        starts_with("--debug"@, seq!['-']),
        starts_with("--debug-mode"@, seq!['-']),
        starts_with("--extended"@, seq!['-']),
        starts_with("-e"@, seq!['-']),
        starts_with("--watch"@, seq!['-']),
        starts_with("-w"@, seq!['-']),
        "--help"@ != "examples"@,
        "-h"@ != "examples"@,
{
    reveal_strlit("--help");
    lemma_dash_start("--help"@);
    reveal_strlit("-h");
    lemma_dash_start("-h"@);
    reveal_strlit("--assemble");
    lemma_dash_start("--assemble"@);
    reveal_strlit("-a");
    lemma_dash_start("-a"@);
    reveal_strlit("--disassemble");
    lemma_dash_start("--disassemble"@);
    reveal_strlit("-d");
    lemma_dash_start("-d"@);
    reveal_strlit("--run");
    lemma_dash_start("--run"@);
    reveal_strlit("-r");
    lemma_dash_start("-r"@);
    reveal_strlit("--output");
    lemma_dash_start("--output"@);
    reveal_strlit("-o");
    lemma_dash_start("-o"@);
    reveal_strlit("--verbose");
    lemma_dash_start("--verbose"@);
    reveal_strlit("-v");
    lemma_dash_start("-v"@);
    reveal_strlit("--debug");
    lemma_dash_start("--debug"@);
    reveal_strlit("--debug-mode");
    lemma_dash_start("--debug-mode"@);
    reveal_strlit("--extended");
    lemma_dash_start("--extended"@);
    reveal_strlit("-e");
    lemma_dash_start("-e"@);
    reveal_strlit("--watch");
    lemma_dash_start("--watch"@);
    reveal_strlit("-w");
    lemma_dash_start("-w"@);
    reveal_strlit("examples");
    let names = option_names();
    assert forall|i: int, j: int| 0 <= i < names.len() && 0 <= j < names.len() && i != j
        implies #[trigger] names[i] != #[trigger] names[j] by {
        if names[i] == names[j] {
            assert(names[i].len() == names[j].len());
            assert(names[i][1] == names[j][1]);
            assert(names[i].len() > 2 ==> names[i][2] == names[j][2]);
            assert(names[i].len() > 3 ==> names[i][3] == names[j][3]);
            assert(names[i].len() > 7 ==> names[i][7] == names[j][7]);
        }
    }
    assert("--help"@[0] != "examples"@[0]);
    assert("-h"@[0] != "examples"@[0]);
}

/// Reading options from `i` on gives the same on two command lines that
/// differ only at `k`, where one has the long and the other the short
/// spelling of an option, when the argument before `k` is not the output
/// option (which would take it as a file name).
proof fn lemma_spellings_agree(a: Seq<Seq<char>>, b: Seq<Seq<char>>, k: int, i: nat, m: ArgsModel)
    requires
        a.len() == b.len(),
        0 <= k < a.len(),
        i >= 1,
        forall|j: int| 0 <= j < a.len() && j != k ==> a[j] == b[j],
        option_spellings(a[k], b[k]),
        k <= 1 || !is_output_option(a[k - 1]),
    ensures
        parse_options(a, i, m) == parse_options(b, i, m),
    decreases a.len() - i,
{
    if i < a.len() {
        lemma_option_literals();
        let x = a[i as int];
        let y = b[i as int];
        if i as int != k {
            assert(x == y);
            if x == "--help"@ || x == "-h"@ {
            } else if x == "--assemble"@ || x == "-a"@ {
                lemma_spellings_agree(a, b, k, i + 1, ArgsModel { mode: Mode::Assemble, ..m });
            } else if x == "--disassemble"@ || x == "-d"@ {
                lemma_spellings_agree(a, b, k, i + 1, ArgsModel { mode: Mode::Disassemble, ..m });
            } else if x == "--run"@ || x == "-r"@ {
                lemma_spellings_agree(a, b, k, i + 1, ArgsModel { mode: Mode::Run, ..m });
            } else if x == "--output"@ || x == "-o"@ {
                if i + 1 < a.len() {
                    assert(i + 1 != k);
                    assert(a[i + 1int] == b[i + 1int]);
                    lemma_spellings_agree(
                        a,
                        b,
                        k,
                        i + 2,
                        ArgsModel { output_file: Some(a[i + 1int]), ..m },
                    );
                }
            } else if x == "--verbose"@ || x == "-v"@ {
                lemma_spellings_agree(a, b, k, i + 1, ArgsModel { verbose: true, ..m });
            } else if x == "--debug"@ || x == "--debug-mode"@ {
                lemma_spellings_agree(a, b, k, i + 1, ArgsModel { debug: true, ..m });
            } else if x == "--extended"@ || x == "-e"@ {
                lemma_spellings_agree(a, b, k, i + 1, ArgsModel { extended: true, ..m });
            } else if x == "--watch"@ || x == "-w"@ {
                lemma_spellings_agree(a, b, k, i + 1, ArgsModel { watch: true, ..m });
            } else if starts_with(x, seq!['-']) {
            } else if m.input_file is None {
                lemma_spellings_agree(a, b, k, i + 1, ArgsModel { input_file: Some(x), ..m });
            }
        } else {
            if x == "--help"@ {
            } else if x == "--assemble"@ {
                lemma_spellings_agree(a, b, k, i + 1, ArgsModel { mode: Mode::Assemble, ..m });
            } else if x == "--disassemble"@ {
                lemma_spellings_agree(a, b, k, i + 1, ArgsModel { mode: Mode::Disassemble, ..m });
            } else if x == "--run"@ {
                lemma_spellings_agree(a, b, k, i + 1, ArgsModel { mode: Mode::Run, ..m });
            } else if x == "--output"@ {
                if i + 1 < a.len() {
                    assert(a[i + 1int] == b[i + 1int]);
                    lemma_spellings_agree(
                        a,
                        b,
                        k,
                        i + 2,
                        ArgsModel { output_file: Some(a[i + 1int]), ..m },
                    );
                }
            } else if x == "--verbose"@ {
                lemma_spellings_agree(a, b, k, i + 1, ArgsModel { verbose: true, ..m });
            } else if x == "--debug"@ {
                lemma_spellings_agree(a, b, k, i + 1, ArgsModel { debug: true, ..m });
            } else if x == "--extended"@ {
                lemma_spellings_agree(a, b, k, i + 1, ArgsModel { extended: true, ..m });
            } else {
                lemma_spellings_agree(a, b, k, i + 1, ArgsModel { watch: true, ..m });
            }
        }
    }
}

/// The long and the short spelling of an option have the same effect:
/// for every command line `p`, the option, `q`, writing the long spelling
/// (`--extended`) or the short one (`-e`) gives the same result, wherever
/// the option stands as an option: not among the words that the examples
/// command joins into a name, and not as the file name after `-o`.
pub proof fn law_option_spellings_agree(
    p: Seq<Seq<char>>,
    long: Seq<char>,
    short: Seq<char>,
    q: Seq<Seq<char>>,
)
    requires
        option_spellings(long, short),
        !(p.len() >= 2 && p[1] == "examples"@),
        p.len() >= 2 ==> !is_output_option(p.last()),
    ensures
        parsed_args(p + seq![long] + q) == parsed_args(p + seq![short] + q),
{
    lemma_option_literals();
    let a = p + seq![long] + q;
    let b = p + seq![short] + q;
    let k = p.len() as int;
    assert(a.len() == b.len());
    assert(a[k] == long && b[k] == short);
    assert forall|j: int| 0 <= j < a.len() && j != k implies a[j] == b[j] by {
        if j < k {
            assert(a[j] == p[j] && b[j] == p[j]);
        } else {
            assert(a[j] == q[j - k - 1] && b[j] == q[j - k - 1]);
        }
    }
    if a.len() >= 2 {
        if k == 0 {
            assert(a[1] == b[1]);
            assert(a.skip(2) =~= b.skip(2));
        } else if k == 1 {
            reveal_strlit("run");
            reveal_strlit("assemble");
            reveal_strlit("disassemble");
            reveal_strlit("debug");
            reveal_strlit("interactive");
            reveal_strlit("live");
            reveal_strlit("examples");
            assert(starts_with(long, seq!['-']) && starts_with(short, seq!['-']));
            assert(long.subrange(0, 1)[0] == long[0]);
            assert(short.subrange(0, 1)[0] == short[0]);
            assert(long[0] == '-' && short[0] == '-');
            assert(long != "run"@ && short != "run"@);
            assert(long != "assemble"@ && short != "assemble"@);
            assert(long != "disassemble"@ && short != "disassemble"@);
            assert(long != "debug"@ && short != "debug"@);
            assert(long != "interactive"@ && short != "interactive"@);
            assert(long != "live"@ && short != "live"@);
            assert(long != "examples"@ && short != "examples"@);
            if long == "--help"@ {
                assert(short == "-h"@);
            } else {
                assert(long != "--help"@ && long != "-h"@);
                assert(short != "--help"@ && short != "-h"@);
                assert(!starts_with(long, seq!['-']) == false);
            }
        } else if k >= 2 {
            assert(a[1] == p[1] && b[1] == p[1]);
            assert(a[k - 1] == p.last());
        }
        assert(first_argument(a).1 >= 1);
        assert(first_argument(a) == first_argument(b));
        lemma_spellings_agree(a, b, k, first_argument(a).1, first_argument(a).0);
    }
}


/// The switches that an option turns on: verbose output (0), debug output
/// (1), the extended instruction set (2), watching the file (3).
pub open spec fn switched_on(m: ArgsModel, switch: nat) -> ArgsModel {
    if switch == 0 {
        ArgsModel { verbose: true, ..m }
    } else if switch == 1 {
        ArgsModel { debug: true, ..m }
    } else if switch == 2 {
        ArgsModel { extended: true, ..m }
    } else {
        ArgsModel { watch: true, ..m }
    }
}

/// Whether `x` is a spelling of the option that turns on `switch`.
pub open spec fn switch_option(x: Seq<char>, switch: nat) -> bool {
    ||| switch == 0 && (x == "--verbose"@ || x == "-v"@)
    ||| switch == 1 && (x == "--debug"@ || x == "--debug-mode"@)
    ||| switch == 2 && (x == "--extended"@ || x == "-e"@)
    ||| switch == 3 && (x == "--watch"@ || x == "-w"@)
}

/// A reading of the command line with `switch` turned on.
pub open spec fn with_switch(r: Result<ArgsModel, Seq<char>>, switch: nat) -> Result<
    ArgsModel,
    Seq<char>,
> {
    match r {
        Ok(m) => Ok(switched_on(m, switch)),
        Err(e) => Err(e),
    }
}

/// No option reads a switch: turning it on before reading the rest turns
/// it on in the result.
proof fn lemma_switch_carried(a: Seq<Seq<char>>, i: nat, m: ArgsModel, switch: nat)
    ensures
        parse_options(a, i, switched_on(m, switch)) == with_switch(parse_options(a, i, m), switch),
    decreases a.len() - i,
{
    if i < a.len() {
        let x = a[i as int];
        if x == "--help"@ || x == "-h"@ {
        } else if x == "--assemble"@ || x == "-a"@ {
            lemma_switch_carried(a, i + 1, ArgsModel { mode: Mode::Assemble, ..m }, switch);
        } else if x == "--disassemble"@ || x == "-d"@ {
            lemma_switch_carried(a, i + 1, ArgsModel { mode: Mode::Disassemble, ..m }, switch);
        } else if x == "--run"@ || x == "-r"@ {
            lemma_switch_carried(a, i + 1, ArgsModel { mode: Mode::Run, ..m }, switch);
        } else if x == "--output"@ || x == "-o"@ {
            if i + 1 < a.len() {
                lemma_switch_carried(a, i + 2, ArgsModel { output_file: Some(a[i + 1int]), ..m }, switch);
            }
        } else if x == "--verbose"@ || x == "-v"@ {
            lemma_switch_carried(a, i + 1, ArgsModel { verbose: true, ..m }, switch);
        } else if x == "--debug"@ || x == "--debug-mode"@ {
            lemma_switch_carried(a, i + 1, ArgsModel { debug: true, ..m }, switch);
        } else if x == "--extended"@ || x == "-e"@ {
            lemma_switch_carried(a, i + 1, ArgsModel { extended: true, ..m }, switch);
        } else if x == "--watch"@ || x == "-w"@ {
            lemma_switch_carried(a, i + 1, ArgsModel { watch: true, ..m }, switch);
        } else if starts_with(x, seq!['-']) {
        } else if m.input_file is None {
            lemma_switch_carried(a, i + 1, ArgsModel { input_file: Some(x), ..m }, switch);
        }
    }
}

/// Reading options from `i` on a command line `b` that is `a` with an
/// option for `switch` inserted at `k` gives what `a` gives, with the
/// switch on.
proof fn lemma_insert_switch(
    a: Seq<Seq<char>>,
    b: Seq<Seq<char>>,
    k: int,
    i: nat,
    m: ArgsModel,
    switch: nat,
)
    requires
        1 <= i <= k <= a.len(),
        b == a.take(k) + seq![b[k]] + a.skip(k),
        switch_option(b[k], switch),
        forall|j: int| i <= j < k ==> a[j] != "--help"@ && a[j] != "-h"@,
        k <= 1 || !is_output_option(a[k - 1]),
    ensures
        parse_options(b, i, m) == with_switch(parse_options(a, i, m), switch),
    decreases k - i,
{
    lemma_option_literals();
    assert(b.len() == a.len() + 1);
    assert forall|j: int| 0 <= j < k implies b[j] == a[j] by {
        assert(b[j] == a.take(k)[j]);
    }
    if i as int == k {
        let x = b[k];
        assert(x != "--help"@ && x != "-h"@ && x != "--assemble"@ && x != "-a"@);
        assert(x != "--disassemble"@ && x != "-d"@ && x != "--run"@ && x != "-r"@);
        assert(x != "--output"@ && x != "-o"@);
        assert(parse_options(b, i, m) == parse_options(b, i + 1, switched_on(m, switch)));
        assert forall|j: int| i <= j < a.len() implies a[j] == b[j + 1] by {
            assert(b[j + 1] == a.skip(k)[j - k]);
        }
        lemma_options_shift(a, b, i, switched_on(m, switch));
        lemma_switch_carried(a, i, m, switch);
    } else {
        let x = a[i as int];
        assert(b[i as int] == x);
        if x == "--assemble"@ || x == "-a"@ {
            lemma_insert_switch(a, b, k, i + 1, ArgsModel { mode: Mode::Assemble, ..m }, switch);
        } else if x == "--disassemble"@ || x == "-d"@ {
            lemma_insert_switch(a, b, k, i + 1, ArgsModel { mode: Mode::Disassemble, ..m }, switch);
        } else if x == "--run"@ || x == "-r"@ {
            lemma_insert_switch(a, b, k, i + 1, ArgsModel { mode: Mode::Run, ..m }, switch);
        } else if x == "--output"@ || x == "-o"@ {
            assert(i + 1 < k);
            assert(b[i + 1int] == a[i + 1int]);
            lemma_insert_switch(
                a,
                b,
                k,
                i + 2,
                ArgsModel { output_file: Some(a[i + 1int]), ..m },
                switch,
            );
        } else if x == "--verbose"@ || x == "-v"@ {
            lemma_insert_switch(a, b, k, i + 1, ArgsModel { verbose: true, ..m }, switch);
        } else if x == "--debug"@ || x == "--debug-mode"@ {
            lemma_insert_switch(a, b, k, i + 1, ArgsModel { debug: true, ..m }, switch);
        } else if x == "--extended"@ || x == "-e"@ {
            lemma_insert_switch(a, b, k, i + 1, ArgsModel { extended: true, ..m }, switch);
        } else if x == "--watch"@ || x == "-w"@ {
            lemma_insert_switch(a, b, k, i + 1, ArgsModel { watch: true, ..m }, switch);
        } else if starts_with(x, seq!['-']) {
        } else if m.input_file is None {
            lemma_insert_switch(a, b, k, i + 1, ArgsModel { input_file: Some(x), ..m }, switch);
        }
    }
}

/// An option that turns on a switch (`-v`/`--verbose`, `--debug`,
/// `-e`/`--extended`, `-w`/`--watch`) turns it on and does nothing else:
/// adding it to a command line after the subcommand gives what the command
/// line gives without it, with the switch on (or the same error). So
/// `asmod run --extended program.asmod` runs with the extended instruction
/// set. This holds wherever the option is read as an option: not among the
/// words of the examples command, not as the file name after `-o`, and not
/// after a `--help` that ends the reading.
pub proof fn law_switch_options(p: Seq<Seq<char>>, x: Seq<char>, switch: nat, q: Seq<Seq<char>>)
    requires
        switch_option(x, switch),
        p.len() >= 2,
        p[1] != "examples"@,
        !is_output_option(p.last()),
        forall|j: int| 2 <= j < p.len() ==> p[j] != "--help"@ && p[j] != "-h"@,
    ensures
        parsed_args(p + seq![x] + q) == with_switch(parsed_args(p + q), switch),
{
    lemma_option_literals();
    let a = p + q;
    let b = p + seq![x] + q;
    let k = p.len() as int;
    assert(b =~= a.take(k) + seq![b[k]] + a.skip(k));
    assert(a[1] == p[1] && b[1] == p[1]);
    assert(a[k - 1] == p.last());
    let (m, i) = first_argument(a);
    assert(first_argument(b) == first_argument(a));
    assert(i >= 1);
    assert(i <= k);
    assert forall|j: int| i <= j < k implies a[j] != "--help"@ && a[j] != "-h"@ by {
        assert(a[j] == p[j]);
    }
    lemma_insert_switch(a, b, k, i, m, switch);
}

/// Reading options from `i` on depends only on the arguments from `i` on.
proof fn lemma_options_tail(a: Seq<Seq<char>>, b: Seq<Seq<char>>, i: nat, m: ArgsModel)
    requires
        a.len() == b.len(),
        forall|j: int| i <= j < a.len() ==> a[j] == b[j],
    ensures
        parse_options(a, i, m) == parse_options(b, i, m),
    decreases a.len() - i,
{
    if i < a.len() {
        let x = a[i as int];
        assert(b[i as int] == x);
        if x == "--help"@ || x == "-h"@ {
        } else if x == "--assemble"@ || x == "-a"@ {
            lemma_options_tail(a, b, i + 1, ArgsModel { mode: Mode::Assemble, ..m });
        } else if x == "--disassemble"@ || x == "-d"@ {
            lemma_options_tail(a, b, i + 1, ArgsModel { mode: Mode::Disassemble, ..m });
        } else if x == "--run"@ || x == "-r"@ {
            lemma_options_tail(a, b, i + 1, ArgsModel { mode: Mode::Run, ..m });
        } else if x == "--output"@ || x == "-o"@ {
            if i + 1 < a.len() {
                assert(a[i + 1int] == b[i + 1int]);
                lemma_options_tail(a, b, i + 2, ArgsModel { output_file: Some(a[i + 1int]), ..m });
            }
        } else if x == "--verbose"@ || x == "-v"@ {
            lemma_options_tail(a, b, i + 1, ArgsModel { verbose: true, ..m });
        } else if x == "--debug"@ || x == "--debug-mode"@ {
            lemma_options_tail(a, b, i + 1, ArgsModel { debug: true, ..m });
        } else if x == "--extended"@ || x == "-e"@ {
            lemma_options_tail(a, b, i + 1, ArgsModel { extended: true, ..m });
        } else if x == "--watch"@ || x == "-w"@ {
            lemma_options_tail(a, b, i + 1, ArgsModel { watch: true, ..m });
        } else if starts_with(x, seq!['-']) {
        } else if m.input_file is None {
            lemma_options_tail(a, b, i + 1, ArgsModel { input_file: Some(x), ..m });
        }
    }
}

/// The subcommands `run`, `assemble` and `disassemble` select the same
/// mode as the options `--run`, `--assemble` and `--disassemble` given in
/// their place: the rest of the command line is read alike.
pub proof fn law_subcommand_as_option(program: Seq<char>, word: Seq<char>, rest: Seq<Seq<char>>)
    requires
        word == "run"@ || word == "assemble"@ || word == "disassemble"@,
    ensures
        parsed_args(seq![program, word] + rest) == parsed_args(
            seq![program, "--"@ + word] + rest,
        ),
{
    lemma_option_literals();
    reveal_strlit("run");
    reveal_strlit("assemble");
    reveal_strlit("disassemble");
    reveal_strlit("--run");
    reveal_strlit("--assemble");
    reveal_strlit("--disassemble");
    reveal_strlit("--");
    reveal_strlit("debug");
    reveal_strlit("interactive");
    reveal_strlit("live");
    reveal_strlit("examples");
    let a = seq![program, word] + rest;
    let o = "--"@ + word;
    let b = seq![program, o] + rest;
    assert(a[1] == word && b[1] == o);
    let mode = if word == "run"@ {
        assert(o =~= "--run"@);
        Mode::Run
    } else if word == "assemble"@ {
        assert(o =~= "--assemble"@);
        Mode::Assemble
    } else {
        assert(o =~= "--disassemble"@);
        Mode::Disassemble
    };
    let m = ArgsModel { mode, ..default_model() };
    assert(word[0] != '-');
    assert(o[0] == '-');
    assert(o != "--help"@ && o != "-h"@);
    assert(o != "run"@ && o != "assemble"@ && o != "disassemble"@ && o != "debug"@);
    assert(o != "interactive"@ && o != "live"@ && o != "examples"@);
    assert(word != "debug"@ && word != "interactive"@ && word != "live"@ && word != "examples"@);
    assert(!starts_with(o, seq!['-']) == false) by {
        assert(o.subrange(0, 1) =~= seq!['-']);
    }
    assert(first_argument(a) == (m, 2nat));
    assert(first_argument(b) == (default_model(), 1nat));
    assert(parse_options(b, 1, default_model()) == parse_options(b, 2, m));
    assert forall|j: int| 2 <= j < a.len() implies a[j] == b[j] by {}
    lemma_options_tail(a, b, 2, m);
}

} // verus!
