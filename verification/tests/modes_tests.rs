use asmodeus::cli::args::{Args, Mode};
use asmodeus::cli::commands::parse_args;
use asmodeus::error::AsmodeusError;
use asmodeus::modes::{
    assembly_listing, run_mode_assemble, run_mode_debug, run_mode_disassemble, run_mode_interactive,
    run_mode_run, run_mode_watch, watch_check, RunPlan,
};

fn args_with(mode: Mode, input: Option<&str>, watch: bool) -> Args {
    Args {
        mode,
        input_file: input.map(|s| s.to_string()),
        output_file: None,
        verbose: false,
        debug: false,
        extended: false,
        watch,
    }
}

fn usage_text(e: AsmodeusError) -> String {
    match e {
        AsmodeusError::UsageError(m) => m,
        other => panic!("expected a usage error, got {:?}", other),
    }
}

#[test]
fn modes_need_an_input_file() {
    assert_eq!(usage_text(run_mode_assemble(&args_with(Mode::Assemble, None, false)).unwrap_err()), "No input file specified");
    assert_eq!(usage_text(run_mode_disassemble(&args_with(Mode::Disassemble, None, false)).unwrap_err()), "No input file specified");
    assert_eq!(
        usage_text(run_mode_debug(&args_with(Mode::Debug, None, false)).unwrap_err()),
        "No input file specified for debug mode. Please provide a .asmod file to debug."
    );
    assert_eq!(
        usage_text(run_mode_interactive(&args_with(Mode::Interactive, None, false)).unwrap_err()),
        "No input file specified for interactive mode"
    );
    assert_eq!(
        usage_text(run_mode_watch(&args_with(Mode::Run, None, true)).unwrap_err()),
        "No input file specified for watch mode"
    );
    assert_eq!(usage_text(run_mode_run(&args_with(Mode::Run, None, false)).unwrap_err()), "No input file specified");
    assert_eq!(
        usage_text(run_mode_run(&args_with(Mode::Run, None, true)).unwrap_err()),
        "No input file specified for watch mode"
    );
}

#[test]
fn modes_check_the_extension() {
    assert_eq!(run_mode_assemble(&args_with(Mode::Assemble, Some("p.asmod"), false)).unwrap(), "p.asmod");
    assert_eq!(run_mode_disassemble(&args_with(Mode::Disassemble, Some("p.bin"), false)).unwrap(), "p.bin");
    assert_eq!(
        usage_text(run_mode_disassemble(&args_with(Mode::Disassemble, Some("p.asmod"), false)).unwrap_err()),
        "Expected .bin file for disassembly, but got .asmod file."
    );
    assert_eq!(
        usage_text(run_mode_debug(&args_with(Mode::Debug, Some("p.txt"), false)).unwrap_err()),
        "Expected .asmod or .asm file, but got .txt file. Please use a valid Asmodeus source file."
    );
    assert_eq!(
        usage_text(run_mode_interactive(&args_with(Mode::Interactive, Some("noext"), false)).unwrap_err()),
        "File has no extension. Expected: .asmod for run/assemble/debug, .bin for disassemble"
    );
}

#[test]
fn run_mode_plans() {
    match run_mode_run(&args_with(Mode::Run, Some("p.asmod"), false)) {
        Ok(RunPlan::Once(p)) => assert_eq!(p, "p.asmod"),
        other => panic!("{:?}", other),
    }
    match run_mode_run(&args_with(Mode::Run, Some("p.asmod"), true)) {
        Ok(RunPlan::Watch(p)) => assert_eq!(p, "p.asmod"),
        other => panic!("{:?}", other),
    }
}

#[test]
fn listing_of_machine_code() {
    assert_eq!(
        assembly_listing(&[0x2005, 42, 0xFFFF]),
        vec![
            "Assembly successful!",
            "Machine code (3 words):",
            "  0000: 2005 (8197)",
            "  0001: 002A (42)",
            "  0002: FFFF (65535)",
        ]
    );
    assert_eq!(assembly_listing(&[]), vec!["Assembly successful!", "Machine code (0 words):"]);
}

#[test]
fn watch_runs_only_on_a_later_time() {
    assert_eq!(watch_check(10, Some(11)), (11, true));
    assert_eq!(watch_check(10, Some(10)), (10, false));
    assert_eq!(watch_check(10, Some(3)), (10, false));
    assert_eq!(watch_check(10, None), (10, false));
}

#[test]
fn bare_file_is_the_run_subcommand() {
    let argv = |v: &[&str]| v.iter().map(|s| s.to_string()).collect::<Vec<String>>();
    for rest in [vec![], vec!["-v"], vec!["-o", "x.bin", "--watch"], vec!["b.asmod"], vec!["--nope"]] {
        let mut bare = vec!["asmod", "prog.asmod"];
        bare.extend(rest.iter());
        let mut with_run = vec!["asmod", "run", "prog.asmod"];
        with_run.extend(rest.iter());
        let a = parse_args(&argv(&bare));
        let b = parse_args(&argv(&with_run));
        assert_eq!(format!("{:?}", a), format!("{:?}", b));
    }
}
