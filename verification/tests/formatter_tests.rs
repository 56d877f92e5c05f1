use asmodeus::formatter::arrays::{
    format_array_block, format_comma_separated_array, format_multiline_array, is_array_start,
};
use asmodeus::formatter::comments::{
    fix_comment_spacing, format_line_with_comment, split_instruction_and_comment,
};
use asmodeus::formatter::document::format_assembly_content;
use asmodeus::formatter::instructions::{
    format_directive, format_instruction, normalize_instruction_spacing,
};
use asmodeus::formatter::labels::{
    format_label_with_data, has_instruction_after_colon, normalize_data_spacing,
    separate_label_and_instruction,
};

#[test]
fn formatter_test_header_comments_no_indent() {
        let input = r#"; example: Test file
; This is a header comment
; Another header comment

start:
    POB #42
    STP"#;

        let expected = r#"; example: Test file
; This is a header comment
; Another header comment

start:
    POB #42
    STP
"#;

        let result = format_assembly_content(input);
        assert_eq!(result, expected);
    }

#[test]
fn formatter_test_inline_comments_with_indent() {
        let input = r#"start:
    POB #42    ; this comment should be indented
    STP        ; this too"#;

        let expected = r#"start:
    POB #42              ; this comment should be indented
    STP                  ; this too

"#;

        let result = format_assembly_content(input);
        assert_eq!(result.trim_end(), expected.trim_end());
    }

#[test]
fn formatter_test_label_instruction_separation() {
        let input = r#"start:POB first
end:STP"#;

        let expected = r#"start:
    POB first
end:
    STP

"#;

        let result = format_assembly_content(input);
        assert_eq!(result.trim_end(), expected.trim_end());
    }

#[test]
fn formatter_test_label_instruction_with_comment_separation() {
        let input = r#"start:POB first;load value
loop:DOD second   ; add value"#;

        let expected = r#"start:
    POB first            ; load value
loop:
    DOD second           ; add value

"#;

        let result = format_assembly_content(input);
        assert_eq!(result.trim_end(), expected.trim_end());
    }

#[test]
fn formatter_test_labels_always_left_aligned() {
        let input = r#"    start:
        loop_label:
            end_label:"#;

        let expected = r#"start:
loop_label:
end_label:

"#;

        let result = format_assembly_content(input);
        assert_eq!(result.trim_end(), expected.trim_end());
    }

#[test]
fn formatter_test_instruction_formatting() {
        let input = r#"start:
POB    first
DOD      second
    WYJSCIE
        STP"#;

        let expected = r#"start:
    POB first
    DOD second
    WYJSCIE
    STP

"#;

        let result = format_assembly_content(input);
        assert_eq!(result.trim_end(), expected.trim_end());
    }

#[test]
fn formatter_test_comment_space_after_semicolon() {
        let input = r#"start:
    POB #42;no space after semicolon
    STP     ;also no space"#;

        let expected = r#"start:
    POB #42              ; no space after semicolon
    STP                  ; also no space

"#;

        let result = format_assembly_content(input);
        assert_eq!(result.trim_end(), expected.trim_end());
    }

#[test]
fn formatter_test_simple_data_labels() {
        let input = r#"start:
    POB value
    STP

value:RST 42
message:   RST 100
buffer: RPA"#;

        let expected = r#"start:
    POB value
    STP

value: RST 42
message: RST 100
buffer: RPA

"#;

        let result = format_assembly_content(input);
        assert_eq!(result.trim_end(), expected.trim_end());
    }

#[test]
fn formatter_test_array_with_commas() {
        let input = r#"array: RST 10,20,30,40"#;

        let expected = r#"array: RST 10
       RST 20
       RST 30
       RST 40

"#;

        let result = format_assembly_content(input);
        assert_eq!(result.trim_end(), expected.trim_end());
    }

#[test]
fn formatter_test_multiline_array() {
        let input = r#"data_array: RST 10
RST 20
RST 30
RST 40
next_label: RST 50"#;

        let expected = r#"data_array: RST 10
            RST 20
            RST 30
            RST 40
next_label: RST 50

"#;

        let result = format_assembly_content(input);
        assert_eq!(result.trim_end(), expected.trim_end());
    }

#[test]
fn formatter_test_mixed_arrays_and_labels() {
        let input = r#"first: RST 1
second: RST 2,3,4
third: RST 5
fourth: RST 6
RST 7
RST 8"#;

        let expected = r#"first: RST 1
second: RST 2
        RST 3
        RST 4
third: RST 5
fourth: RST 6
        RST 7
        RST 8

"#;

        let result = format_assembly_content(input);
        assert_eq!(result.trim_end(), expected.trim_end());
    }

#[test]
fn formatter_test_directives() {
        let input = r#".data
    .text
.section    .rodata"#;

        let expected = r#"    .data
    .text
    .section .rodata

"#;

        let result = format_assembly_content(input);
        assert_eq!(result.trim_end(), expected.trim_end());
    }

#[test]
fn formatter_test_empty_lines_handling() {
    let input = r#"; header


start:


    POB #42


    STP


"#;

    let expected = r#"; header


start:


    POB #42


    STP

"#;

    let result = format_assembly_content(input);
    assert_eq!(result.trim_end(), expected.trim_end());
}

#[test]
fn formatter_test_complex_program() {
        let input = r#"; example: Complex test program
; Tests multiple formatting features

    start:POB first;load first
DOD    second ; add second
    WYJSCIE
STP

loop:    POB counter
SOZ end
    DOD #1
LAD counter
SOB loop

end:STP

first:RST 25
second:    RST 17
array: RST 1,2,3
buffer:RPA
multiline: RST 10
RST 20
RST 30"#;

        let expected = r#"; example: Complex test program
; Tests multiple formatting features

start:
    POB first            ; load first
    DOD second           ; add second
    WYJSCIE
    STP

loop:
    POB counter
    SOZ end
    DOD #1
    LAD counter
    SOB loop

end:
    STP

first: RST 25
second: RST 17
array: RST 1
       RST 2
       RST 3
buffer: RPA
multiline: RST 10
           RST 20
           RST 30

"#;

        let result = format_assembly_content(input);
        assert_eq!(result.trim_end(), expected.trim_end());
    }

#[test]
fn formatter_test_split_instruction_and_comment() {
        let (inst, comment) = split_instruction_and_comment("POB #42 ; this is comment");
        assert_eq!(inst, "POB #42");
        assert_eq!(comment, Some("; this is comment"));

        let (inst, comment) = split_instruction_and_comment("POB #42;no space");
        assert_eq!(inst, "POB #42");
        assert_eq!(comment, Some(";no space"));

        let (inst, comment) = split_instruction_and_comment("POB #42");
        assert_eq!(inst, "POB #42");
        assert_eq!(comment, None);
    }

#[test]
fn formatter_test_has_instruction_after_colon() {
        assert_eq!(has_instruction_after_colon("start:POB #42"), true);
        assert_eq!(has_instruction_after_colon("start: POB #42"), true);
        assert_eq!(has_instruction_after_colon("start:"), false);
        assert_eq!(has_instruction_after_colon("value: RST 42"), false);
        assert_eq!(has_instruction_after_colon("value: RPA"), false);
        assert_eq!(has_instruction_after_colon("start:; comment only"), false);
    }

#[test]
fn formatter_test_is_array_start() {
        let lines = vec!["array: RST 1,2,3"];
        assert_eq!(is_array_start(&lines, 0), true);

        let lines = vec!["array: RST 1", "RST 2"];
        assert_eq!(is_array_start(&lines, 0), true);

        let lines = vec!["value: RST 42"];
        assert_eq!(is_array_start(&lines, 0), false);

        let lines = vec!["value: RST 42", "next: RST 43"];
        assert_eq!(is_array_start(&lines, 0), false);
    }

#[test]
fn formatter_test_format_instruction() {
        assert_eq!(format_instruction("POB #42"), "POB #42");
        assert_eq!(format_instruction("POB    #42"), "POB #42");
        assert_eq!(format_instruction("POB #42;comment"), "POB #42              ; comment");
        assert_eq!(format_instruction("POB #42   ;comment"), "POB #42              ; comment");
    }

#[test]
fn formatter_test_separate_label_and_instruction() {
        let result = separate_label_and_instruction("start:POB #42");
        assert_eq!(result, vec!["start:", "    POB #42"]);

        let result = separate_label_and_instruction("start: POB #42");
        assert_eq!(result, vec!["start:", "    POB #42"]);

        let result = separate_label_and_instruction("start:POB #42;comment");
        assert_eq!(result, vec!["start:", "    POB #42              ; comment"]);
    }

#[test]
fn formatter_test_edge_cases() {
        // empty file
        assert_eq!(format_assembly_content(""), "\n");

        // only comments
        assert_eq!(format_assembly_content("; only comment"), "; only comment\n");

        // just label
        assert_eq!(format_assembly_content("start:"), "start:\n");

        // just instruction
        assert_eq!(format_assembly_content("POB #42"), "    POB #42\n");
    }

#[test]
fn tests_test_header_comments_no_indent() {
    let input = r#"; example: Test file
; This is a header comment
; Another header comment

start:
    POB #42
    STP"#;

    let expected = r#"; example: Test file
; This is a header comment
; Another header comment

start:
    POB #42
    STP
"#;

    let result = format_assembly_content(input);
    assert_eq!(result, expected);
}

#[test]
fn tests_test_inline_comments_with_indent() {
    let input = r#"start:
    POB #42    ; this comment should be indented
    STP        ; this too"#;

    let expected = r#"start:
    POB #42              ; this comment should be indented
    STP                  ; this too

"#;

    let result = format_assembly_content(input);
    assert_eq!(result.trim_end(), expected.trim_end());
}

#[test]
fn tests_test_comment_space_after_semicolon() {
    let input = r#"start:
    POB #42;no space after semicolon
    STP     ;also no space"#;

    let expected = r#"start:
    POB #42              ; no space after semicolon
    STP                  ; also no space

"#;

    let result = format_assembly_content(input);
    assert_eq!(result.trim_end(), expected.trim_end());
}

#[test]
fn tests_test_label_instruction_separation() {
    let input = r#"start:POB first
end:STP"#;

    let expected = r#"start:
    POB first
end:
    STP

"#;

    let result = format_assembly_content(input);
    assert_eq!(result.trim_end(), expected.trim_end());
}

#[test]
fn tests_test_label_instruction_with_comment_separation() {
    let input = r#"start:POB first;load value
loop:DOD second   ; add value"#;

    let expected = r#"start:
    POB first            ; load value
loop:
    DOD second           ; add value

"#;

    let result = format_assembly_content(input);
    assert_eq!(result.trim_end(), expected.trim_end());
}

#[test]
fn tests_test_labels_always_left_aligned() {
    let input = r#"    start:
        loop_label:
            end_label:"#;

    let expected = r#"start:
loop_label:
end_label:

"#;

    let result = format_assembly_content(input);
    assert_eq!(result.trim_end(), expected.trim_end());
}

#[test]
fn tests_test_simple_data_labels() {
    let input = r#"start:
    POB value
    STP

value:RST 42
message:   RST 100
buffer: RPA"#;

    let expected = r#"start:
    POB value
    STP

value: RST 42
message: RST 100
buffer: RPA

"#;

    let result = format_assembly_content(input);
    assert_eq!(result.trim_end(), expected.trim_end());
}

#[test]
fn tests_test_instruction_formatting() {
    let input = r#"start:
POB    first
DOD      second
    WYJSCIE
        STP"#;

    let expected = r#"start:
    POB first
    DOD second
    WYJSCIE
    STP

"#;

    let result = format_assembly_content(input);
    assert_eq!(result.trim_end(), expected.trim_end());
}

#[test]
fn tests_test_directives() {
    let input = r#".data
    .text
.section    .rodata"#;

    let expected = r#"    .data
    .text
    .section .rodata

"#;

    let result = format_assembly_content(input);
    assert_eq!(result.trim_end(), expected.trim_end());
}

#[test]
fn tests_test_array_with_commas() {
    let input = r#"array: RST 10,20,30,40"#;

    let expected = r#"array: RST 10
       RST 20
       RST 30
       RST 40

"#;

    let result = format_assembly_content(input);
    assert_eq!(result.trim_end(), expected.trim_end());
}

#[test]
fn tests_test_multiline_array() {
    let input = r#"data_array: RST 10
RST 20
RST 30
RST 40
next_label: RST 50"#;

    let expected = r#"data_array: RST 10
            RST 20
            RST 30
            RST 40
next_label: RST 50

"#;

    let result = format_assembly_content(input);
    assert_eq!(result.trim_end(), expected.trim_end());
}

#[test]
fn tests_test_mixed_arrays_and_labels() {
    let input = r#"first: RST 1
second: RST 2,3,4
third: RST 5
fourth: RST 6
RST 7
RST 8"#;

    let expected = r#"first: RST 1
second: RST 2
        RST 3
        RST 4
third: RST 5
fourth: RST 6
        RST 7
        RST 8

"#;

    let result = format_assembly_content(input);
    assert_eq!(result.trim_end(), expected.trim_end());
}

#[test]
fn tests_test_empty_lines_handling() {
    let input = r#"; header


start:


    POB #42


    STP


"#;

    let expected = r#"; header


start:


    POB #42


    STP

"#;

    let result = format_assembly_content(input);
    assert_eq!(result.trim_end(), expected.trim_end());
}

#[test]
fn tests_test_edge_cases() {
    // empty file
    assert_eq!(format_assembly_content(""), "\n");

    // only comments
    assert_eq!(format_assembly_content("; only comment"), "; only comment\n");

    // just label
    assert_eq!(format_assembly_content("start:"), "start:\n");

    // just instruction
    assert_eq!(format_assembly_content("POB #42"), "    POB #42\n");
}

#[test]
fn tests_test_complex_program() {
    let input = r#"; example: Complex test program
; Tests multiple formatting features

    start:POB first;load first
DOD    second ; add second
    WYJSCIE
STP

loop:    POB counter
SOZ end
    DOD #1
LAD counter
SOB loop

end:STP

first:RST 25
second:    RST 17
array: RST 1,2,3
buffer:RPA
multiline: RST 10
RST 20
RST 30"#;

    let expected = r#"; example: Complex test program
; Tests multiple formatting features

start:
    POB first            ; load first
    DOD second           ; add second
    WYJSCIE
    STP

loop:
    POB counter
    SOZ end
    DOD #1
    LAD counter
    SOB loop

end:
    STP

first: RST 25
second: RST 17
array: RST 1
       RST 2
       RST 3
buffer: RPA
multiline: RST 10
           RST 20
           RST 30

"#;

    let result = format_assembly_content(input);
    assert_eq!(result.trim_end(), expected.trim_end());
}

#[test]
fn test_various_instruction_formats() {
    let input = r#"start:
    POB    #42
    DOD   arg1   arg2
    MAKRO   name   param1   param2
    WYJSCIE
    STP"#;

    let expected = r#"start:
    POB #42
    DOD arg1 arg2
    MAKRO name param1 param2
    WYJSCIE
    STP

"#;

    let result = format_assembly_content(input);
    assert_eq!(result.trim_end(), expected.trim_end());
}

#[test]
fn test_data_with_different_formats() {
    let input = r#"decimal: RST 42
hex_val: RST 0x2A
negative: RST -10
buffer: RPA"#;

    let expected = r#"decimal: RST 42
hex_val: RST 0x2A
negative: RST -10
buffer: RPA

"#;

    let result = format_assembly_content(input);
    assert_eq!(result.trim_end(), expected.trim_end());
}

#[test]
fn test_comments_with_data() {
    let input = r#"value: RST 42;this is data
buffer: RPA   ; buffer space
array: RST 1,2,3   ;array data"#;

    let expected = r#"value: RST 42        ; this is data
buffer: RPA          ; buffer space
array: RST 1         ; array data
       RST 2
       RST 3

"#;

    let result = format_assembly_content(input);
    assert_eq!(result.trim_end(), expected.trim_end());
}

#[test]
fn test_mixed_label_types() {
    let input = r#"standalone:
attached:POB #42
data_label: RST 100
array_label: RST 1,2,3"#;

    let expected = r#"standalone:
attached:
    POB #42
data_label: RST 100
array_label: RST 1
             RST 2
             RST 3

"#;

    let result = format_assembly_content(input);
    assert_eq!(result.trim_end(), expected.trim_end());
}

#[test]
fn test_preserve_important_spacing() {
    let input = r#"; header comment

start:
    POB #42

    STP

; footer comment"#;

    let expected = r#"; header comment

start:
    POB #42

    STP

    ; footer comment

"#;

    let result = format_assembly_content(input);
    assert_eq!(result.trim_end(), expected.trim_end());
}

#[test]
fn test_no_extra_spaces_in_output() {
    let input = r#"start:
    POB #42
    STP"#;

    let result = format_assembly_content(input);
    
    // no line has trailing spaces
    for line in result.lines() {
        assert_eq!(line, line.trim_end(), "Line should not have trailing spaces: '{}'", line);
    }
}

#[test]
fn arrays_test_is_array_start() {
        // single-line array with commas
        let lines = vec!["array: RST 1,2,3"];
        assert_eq!(is_array_start(&lines, 0), true);

        // multi-line array
        let lines = vec!["array: RST 1", "RST 2"];
        assert_eq!(is_array_start(&lines, 0), true);

        // not an array
        let lines = vec!["value: RST 42"];
        assert_eq!(is_array_start(&lines, 0), false);

        // not an array
        let lines = vec!["value: RST 42", "next: RST 43"];
        assert_eq!(is_array_start(&lines, 0), false);

        // array at end of file
        let lines = vec!["array: RST 1"];
        assert_eq!(is_array_start(&lines, 0), false);
    }

#[test]
fn test_format_comma_separated_array() {
        let mut result = Vec::new();
        format_comma_separated_array(&mut result, "array", "RST 10,20,30,40");
        
        let expected = vec![
            "array: RST 10",
            "       RST 20",
            "       RST 30",
            "       RST 40"
        ];
        assert_eq!(result, expected);
    }

#[test]
fn test_format_multiline_array() {
        let lines = vec!["data_array: RST 10", "RST 20", "RST 30", "RST 40", "next_label: RST 50"];
        let mut current_idx = 0;
        let mut result = Vec::new();
        
        format_multiline_array(&mut result, &lines, &mut current_idx, "data_array", lines[0]);
        
        let expected = vec![
            "data_array: RST 10",
            "            RST 20",
            "            RST 30",
            "            RST 40"
        ];
        assert_eq!(result, expected);
        assert_eq!(current_idx, 3); // should stop before "next_label"
    }

#[test]
fn test_format_array_block_with_commas() {
        let lines = vec!["array: RST 10,20,30,40"];
        let mut current_idx = 0;
        
        let result = format_array_block(&lines, &mut current_idx);
        
        let expected = vec![
            "array: RST 10",
            "       RST 20",
            "       RST 30",
            "       RST 40"
        ];
        assert_eq!(result, expected);
        assert_eq!(current_idx, 1);
    }

#[test]
fn test_format_array_block_multiline() {
        let lines = vec!["data: RST 10", "RST 20", "RST 30", "next: RST 40"];
        let mut current_idx = 0;
        
        let result = format_array_block(&lines, &mut current_idx);
        
        let expected = vec![
            "data: RST 10",
            "      RST 20",
            "      RST 30"
        ];
        assert_eq!(result, expected);
        assert_eq!(current_idx, 3); // should stop at "next: RST 40"
    }

#[test]
fn test_array_with_different_label_lengths() {
        // short label
        let mut result = Vec::new();
        format_comma_separated_array(&mut result, "a", "RST 1,2");
        assert_eq!(result, vec!["a: RST 1", "   RST 2"]);

        // long label
        let mut result = Vec::new();
        format_comma_separated_array(&mut result, "very_long_label", "RST 1,2");
        assert_eq!(result, vec!["very_long_label: RST 1", "                 RST 2"]);
    }

#[test]
fn comments_test_split_instruction_and_comment() {
        let (inst, comment) = split_instruction_and_comment("POB #42 ; this is comment");
        assert_eq!(inst, "POB #42");
        assert_eq!(comment, Some("; this is comment"));

        let (inst, comment) = split_instruction_and_comment("POB #42;no space");
        assert_eq!(inst, "POB #42");
        assert_eq!(comment, Some(";no space"));

        let (inst, comment) = split_instruction_and_comment("POB #42");
        assert_eq!(inst, "POB #42");
        assert_eq!(comment, None);
    }

#[test]
fn test_fix_comment_spacing() {
        assert_eq!(fix_comment_spacing(";no space"), "; no space");
        assert_eq!(fix_comment_spacing("; already good"), "; already good");
        assert_eq!(fix_comment_spacing(";"), ";");
        assert_eq!(fix_comment_spacing("; "), "; ");
    }

#[test]
fn test_format_line_with_comment() {
        let result = format_line_with_comment("POB #42", ";comment", 20);
        assert_eq!(result, "POB #42              ; comment");
        
        let result = format_line_with_comment("POB #42", "; already spaced", 20);
        assert_eq!(result, "POB #42              ; already spaced");
    }

#[test]
fn instructions_test_format_instruction() {
        assert_eq!(format_instruction("POB #42"), "POB #42");
        assert_eq!(format_instruction("POB    #42"), "POB #42");
        assert_eq!(format_instruction("POB #42;comment"), "POB #42              ; comment");
        assert_eq!(format_instruction("POB #42   ;comment"), "POB #42              ; comment");
        assert_eq!(format_instruction("WYJSCIE"), "WYJSCIE");
    }

#[test]
fn test_format_directive() {
        assert_eq!(format_directive(".data"), ".data");
        assert_eq!(format_directive(".text"), ".text");
        assert_eq!(format_directive(".section    .rodata"), ".section .rodata");
        assert_eq!(format_directive(".section .data;comment"), ".section .data       ; comment");
    }

#[test]
fn test_normalize_instruction_spacing() {
        assert_eq!(normalize_instruction_spacing("POB #42"), "POB #42");
        assert_eq!(normalize_instruction_spacing("POB    #42"), "POB #42");
        assert_eq!(normalize_instruction_spacing("DOD   first   second"), "DOD first second");
        assert_eq!(normalize_instruction_spacing("STP"), "STP");
    }

#[test]
fn test_instruction_with_multiple_args() {
        assert_eq!(format_instruction("DOD   arg1   arg2"), "DOD arg1 arg2");
        assert_eq!(format_instruction("MAKRO   name   param1   param2"), "MAKRO name param1 param2");
    }

#[test]
fn test_directive_with_complex_args() {
        assert_eq!(format_directive(".section   .text   \"executable\""), ".section .text \"executable\"");
        assert_eq!(format_directive(".global    _start"), ".global _start");
    }

#[test]
fn labels_test_has_instruction_after_colon() {
        assert_eq!(has_instruction_after_colon("start:POB #42"), true);
        assert_eq!(has_instruction_after_colon("start: POB #42"), true);
        assert_eq!(has_instruction_after_colon("start:"), false);
        assert_eq!(has_instruction_after_colon("value: RST 42"), false);
        assert_eq!(has_instruction_after_colon("value: RPA"), false);
        assert_eq!(has_instruction_after_colon("start:; comment only"), false);
        assert_eq!(has_instruction_after_colon("loop:DOD second"), true);
        assert_eq!(has_instruction_after_colon("end:STP"), true);
    }

#[test]
fn labels_test_separate_label_and_instruction() {
        let result = separate_label_and_instruction("start:POB #42");
        assert_eq!(result, vec!["start:", "    POB #42"]);

        let result = separate_label_and_instruction("start: POB #42");
        assert_eq!(result, vec!["start:", "    POB #42"]);

        let result = separate_label_and_instruction("start:POB #42;comment");
        assert_eq!(result, vec!["start:", "    POB #42              ; comment"]);

        let result = separate_label_and_instruction("end:STP");
        assert_eq!(result, vec!["end:", "    STP"]);

        let result = separate_label_and_instruction("label:");
        assert_eq!(result, vec!["label:"]);
    }

#[test]
fn test_format_label_with_data() {
        assert_eq!(format_label_with_data("value: RST 42"), "value: RST 42");
        assert_eq!(format_label_with_data("value:RST 42"), "value: RST 42");
        assert_eq!(format_label_with_data("message:   RST 100"), "message: RST 100");
        assert_eq!(format_label_with_data("buffer: RPA"), "buffer: RPA");
        assert_eq!(format_label_with_data("buffer:RPA"), "buffer: RPA");
        
        // With comments
        assert_eq!(format_label_with_data("value: RST 42;comment"), "value: RST 42        ; comment");
        assert_eq!(format_label_with_data("buffer: RPA   ; buffer space"), "buffer: RPA          ; buffer space");
    }

#[test]
fn test_normalize_data_spacing() {
        assert_eq!(normalize_data_spacing("RST 42"), "RST 42");
        assert_eq!(normalize_data_spacing("RST    42"), "RST 42");
        assert_eq!(normalize_data_spacing("RPA"), "RPA");
        assert_eq!(normalize_data_spacing("RST   0x2A"), "RST 0x2A");
    }

#[test]
fn test_complex_label_scenarios() {
        // multiple spaces
        assert_eq!(format_label_with_data("  value  :  RST   42  "), "value: RST 42");
        
        // hex values
        assert_eq!(format_label_with_data("addr: RST 0x1000"), "addr: RST 0x1000");
        
        // negative values
        assert_eq!(format_label_with_data("offset: RST -10"), "offset: RST -10");
    }

