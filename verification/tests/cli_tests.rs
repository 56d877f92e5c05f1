use asmodeus::cli::args::Mode;
use asmodeus::cli::commands::parse_args;
use asmodeus::error::AsmodeusError;
use asmodeus::file_utils::{check_extension, validate_file_extension, words_from_bytes, words_to_bytes};

fn argv(v: &[&str]) -> Vec<String> {
    let mut a = vec!["asmod".to_string()];
    a.extend(v.iter().map(|s| s.to_string()));
    a
}

fn usage_message(r: Result<asmodeus::cli::args::Args, AsmodeusError>) -> String {
    match r {
        Err(AsmodeusError::UsageError(m)) => m,
        other => panic!("expected a usage error, got {:?}", other),
    }
}

#[test]
fn no_arguments_is_an_error() {
    assert_eq!(usage_message(parse_args(&argv(&[]))), "No arguments provided");
}

#[test]
fn subcommands_select_modes() {
    assert_eq!(parse_args(&argv(&["run", "a.asmod"])).unwrap().mode, Mode::Run);
    assert_eq!(parse_args(&argv(&["assemble", "a.asmod"])).unwrap().mode, Mode::Assemble);
    assert_eq!(parse_args(&argv(&["disassemble", "a.bin"])).unwrap().mode, Mode::Disassemble);
    assert_eq!(parse_args(&argv(&["debug", "a.asmod"])).unwrap().mode, Mode::Debug);
    assert_eq!(parse_args(&argv(&["interactive", "a.asmod"])).unwrap().mode, Mode::Interactive);
    assert_eq!(parse_args(&argv(&["live", "a.asmod"])).unwrap().mode, Mode::Interactive);
    assert_eq!(parse_args(&argv(&["--help"])).unwrap().mode, Mode::Help);
    assert_eq!(parse_args(&argv(&["-h"])).unwrap().mode, Mode::Help);
}

#[test]
fn bare_file_defaults_to_run() {
    let a = parse_args(&argv(&["prog.asmod", "-v", "-e", "--watch"])).unwrap();
    assert_eq!(a.mode, Mode::Run);
    assert_eq!(a.input_file.as_deref(), Some("prog.asmod"));
    assert!(a.verbose && a.extended && a.watch && !a.debug);
}

#[test]
fn options_are_read() {
    let a = parse_args(&argv(&["assemble", "x.asmod", "-o", "out.bin", "--debug-mode"])).unwrap();
    assert_eq!(a.mode, Mode::Assemble);
    assert_eq!(a.input_file.as_deref(), Some("x.asmod"));
    assert_eq!(a.output_file.as_deref(), Some("out.bin"));
    assert!(a.debug);
    let b = parse_args(&argv(&["--verbose", "-d", "f.bin"])).unwrap();
    assert_eq!(b.mode, Mode::Disassemble);
    assert!(b.verbose);
    assert_eq!(b.input_file.as_deref(), Some("f.bin"));
    let c = parse_args(&argv(&["run", "x.asmod", "-h", "--bogus"])).unwrap();
    assert_eq!(c.mode, Mode::Help);
}

#[test]
fn option_errors() {
    assert_eq!(usage_message(parse_args(&argv(&["run", "-o"]))), "Missing output file");
    assert_eq!(usage_message(parse_args(&argv(&["run", "--frob"]))), "Unknown option: --frob");
    assert_eq!(
        usage_message(parse_args(&argv(&["run", "a.asmod", "b.asmod"]))),
        "Multiple input files specified"
    );
}

#[test]
fn examples_subcommand_joins_the_rest() {
    let a = parse_args(&argv(&["examples", "run", "hello"])).unwrap();
    assert_eq!(a.mode, Mode::Examples);
    assert_eq!(a.input_file.as_deref(), Some("run hello"));
    let b = parse_args(&argv(&["examples"])).unwrap();
    assert_eq!(b.input_file, None);
}

#[test]
fn extensions_per_mode() {
    assert!(validate_file_extension("dir/prog.asmod", Mode::Run).is_ok());
    assert!(validate_file_extension("prog.bin", Mode::Disassemble).is_ok());
    assert!(validate_file_extension("anything", Mode::Help).is_ok());
    match validate_file_extension("prog.txt", Mode::Assemble) {
        Err(AsmodeusError::UsageError(m)) => assert_eq!(
            m,
            "Expected .asmod or .asm file, but got .txt file. Please use a valid Asmodeus source file."
        ),
        other => panic!("unexpected {:?}", other),
    }
    match validate_file_extension("prog.asmod", Mode::Disassemble) {
        Err(AsmodeusError::UsageError(m)) => {
            assert_eq!(m, "Expected .bin file for disassembly, but got .asmod file.")
        }
        other => panic!("unexpected {:?}", other),
    }
    match validate_file_extension("noext", Mode::Debug) {
        Err(AsmodeusError::UsageError(m)) => assert_eq!(
            m,
            "File has no extension. Expected: .asmod for run/assemble/debug, .bin for disassemble"
        ),
        other => panic!("unexpected {:?}", other),
    }
    assert!(check_extension(None, Mode::Examples).is_ok());
    assert!(validate_file_extension(".asmod", Mode::Run).is_err());
    assert!(validate_file_extension("prog.asm", Mode::Run).is_ok());
}

#[test]
fn wrong_source_extension_names_what_is_expected() {
    match validate_file_extension("test_wrong.txt", Mode::Run) {
        Err(AsmodeusError::UsageError(m)) => {
            assert!(m.contains("Expected .asmod or .asm file"));
            assert!(m.contains("Expected .asmod"));
        }
        other => panic!("unexpected {:?}", other),
    }
}

#[test]
fn binary_words_roundtrip() {
    let words = vec![0x1234u16, 0, 0xFFFF, 42];
    let bytes = words_to_bytes(&words);
    assert_eq!(bytes, vec![0x34, 0x12, 0, 0, 0xFF, 0xFF, 42, 0]);
    assert_eq!(words_from_bytes("p.bin", &bytes).unwrap(), words);
}

#[test]
fn odd_binary_is_rejected() {
    match words_from_bytes("p.bin", &[1, 2, 3]) {
        Err(AsmodeusError::UsageError(m)) => {
            assert_eq!(m, "Binary file 'p.bin' has odd number of bytes (3)")
        }
        other => panic!("unexpected {:?}", other),
    }
}

#[test]
fn debug_option_sets_debug_output() {
    let a = parse_args(&argv(&["run", "--debug", "program.asmod"])).unwrap();
    assert!(a.debug);
    assert_eq!(a.mode, Mode::Run);
    assert_eq!(a.input_file.as_deref(), Some("program.asmod"));
    let b = parse_args(&argv(&["run", "--verbose", "--debug", "program.asmod"])).unwrap();
    assert!(b.verbose && b.debug);
    assert!(parse_args(&argv(&["p.asmod", "--debug-mode"])).unwrap().debug);
}
