use asmodeus::formatter::instructions::format_instruction;
use asmodeus::formatter::labels::format_label_with_data;
use asmodeus::formatter::comments::split_instruction_and_comment;
use asmodeus::error::AsmodeusError;
use asmodeus::formatter::document::format_assembly_content;
use asmodeus::formatter::saving::formatted_output_path;

fn no_three_blank_lines(text: &str) -> bool {
    let lines: Vec<&str> = text.split('\n').collect();
    lines.windows(3).all(|w| !(w[0].is_empty() && w[1].is_empty() && w[2].is_empty()))
}

#[test]
fn blank_runs_are_compressed() {
    let inputs = [
        "; a\n\n\n\n\n\nstart:\n\n\n\n    POB #1\n\n\n\n\nSTP\n\n\n\n",
        "\n\n\n\n; only after blanks\n\n\n",
        "x: RST 1, 2, 3\n\n\n\ny: RPA\n\n\n\n\n",
        "a:\n\n\n\nb:\n\n\n\nc: POB 1\n",
    ];
    for input in inputs {
        let out = format_assembly_content(input);
        assert!(no_three_blank_lines(&out), "{:?}", out);
        assert!(out.ends_with('\n'));
    }
    assert_eq!(
        format_assembly_content("POB 1\n\n\n\n\nSTP"),
        "    POB 1\n\n\n    STP\n"
    );
}

#[test]
fn output_paths_for_formatted_files() {
    assert_eq!(formatted_output_path("prog.asmod", &None), "prog-formatted.asmod");
    assert_eq!(formatted_output_path("dir.asmod/prog.asmod", &None), "dir-formatted.asmod/prog-formatted.asmod");
    assert_eq!(formatted_output_path("prog.txt", &None), "prog.txt.formatted");
    assert_eq!(formatted_output_path("prog.asmod.bak", &None), "prog.asmod.bak.formatted");
    assert_eq!(formatted_output_path("prog.asmod", &Some("out.asmod".to_string())), "out.asmod");
}

#[test]
fn errors_display_with_their_stage() {
    let cases = [
        (AsmodeusError::IoError("gone".into()), "I/O Error: gone"),
        (AsmodeusError::LexerError("bad char".into()), "Lexer Error: bad char"),
        (AsmodeusError::ParserError("bad".into()), "Parser Error: bad"),
        (AsmodeusError::AssemblerError("x".into()), "Assembler Error: x"),
        (AsmodeusError::MachineError("y".into()), "Machine Error: y"),
        (AsmodeusError::DisassemblerError("z".into()), "Disassembler Error: z"),
        (AsmodeusError::UsageError("No arguments provided".into()), "Usage Error: No arguments provided"),
    ];
    for (e, text) in cases {
        assert_eq!(e.message(), text);
    }
}

#[test]
fn documents_end_with_a_line_ending() {
    assert_eq!(format_assembly_content(""), "\n");
    assert_eq!(format_assembly_content("  \n\t\n"), "\n");
    assert_eq!(format_assembly_content("STP\n\n\n"), "    STP\n");
    // An array whose values are only in its comment gives no line at all.
    assert_eq!(format_assembly_content("x: RPA 1,2 ; RST"), "");
}

#[test]
fn formatted_text_has_no_long_blank_runs() {
    for input in ["\n\n\n\n\nPOB 1\n\n\n\n\n\nSTP\n\n\n\n", "a:\n\n\n\n\n; c\n\n\n\n", "\n\n\n\nx"] {
        let out = format_assembly_content(input);
        assert!(!out.contains("\n\n\n\n"), "{:?}", out);
        assert!(!out.starts_with("\n\n\n"), "{:?}", out);
        assert!(!out.ends_with("\n\n"), "{:?}", out);
    }
}

#[test]
fn formatting_an_instruction_twice_changes_nothing() {
    for input in ["POB   #42", "  DOD  x  ;add", "STP;", "; only comment", "WPR\t2", "a b c ; x y  "] {
        let once = format_instruction(input);
        assert_eq!(format_instruction(&once), once, "{:?}", input);
    }
}

#[test]
fn label_data_is_its_words_joined() {
    assert_eq!(format_label_with_data("  value  :  RST   42  "), "value: RST 42");
    assert_eq!(format_label_with_data("x:RPA"), "x: RPA");
    assert_eq!(format_label_with_data("no colon here"), "no colon here");
}

#[test]
fn split_pieces_rebuild_the_line() {
    let line = "  POB #42   ;  note ; more  ";
    let (code, comment) = split_instruction_and_comment(line);
    assert_eq!(code, "POB #42");
    assert_eq!(comment, Some(";  note ; more"));
    let (code, comment) = split_instruction_and_comment("  STP  ");
    assert_eq!((code, comment), ("STP", None));
}
