use asmodeus::debug::listings::{ast_debug_lines, token_debug_lines, AstElementView, TokenView};

fn token(kind: &str, value: &str, line: usize, column: usize) -> TokenView {
    TokenView { kind: kind.to_string(), value: value.to_string(), line, column }
}

#[test]
fn token_listing_lines() {
    let lines = token_debug_lines(&vec![token("Keyword", "POB", 1, 5), token("Number", "42", 1, 9)]);
    let expected = vec![
        "=== TOKENS ===",
        "Token 1 {",
        "    kind: Keyword,",
        "    value: \"POB\",",
        "    line: 1,",
        "    column: 5",
        "},",
        "Token 2 {",
        "    kind: Number,",
        "    value: \"42\",",
        "    line: 1,",
        "    column: 9",
        "},",
        "======",
        "",
    ];
    assert_eq!(lines, expected);
    assert_eq!(token_debug_lines(&vec![]), vec!["=== TOKENS ===", "======", ""]);
}

#[test]
fn ast_listing_lines() {
    let elements = vec![
        AstElementView::Label { name: "start".to_string(), line: 1, column: 1 },
        AstElementView::Instruction {
            opcode: "POB".to_string(),
            operand: Some(("Immediate".to_string(), "42".to_string())),
            line: 2,
            column: 5,
        },
        AstElementView::Instruction { opcode: "STP".to_string(), operand: None, line: 3, column: 5 },
        AstElementView::Directive {
            name: "RST".to_string(),
            arguments: "[\"1\", \"2\"]".to_string(),
            line: 4,
            column: 1,
        },
        AstElementView::MacroCall,
        AstElementView::MacroDefinition,
    ];
    let expected = vec![
        "=== AST ===",
        "Program {",
        "    elements: [",
        "        LabelDefinition(",
        "            LabelDefinition {",
        "                name: \"start\",",
        "                line: 1,",
        "                column: 1",
        "            }",
        "        ),",
        "        Instruction(",
        "            Instruction {",
        "                opcode: \"POB\",",
        "                operand: Some(Operand {",
        "                    addressing_mode: Immediate,",
        "                    value: \"42\"",
        "                }),",
        "                line: 2,",
        "                column: 5",
        "            }",
        "        ),",
        "        Instruction(",
        "            Instruction {",
        "                opcode: \"STP\",",
        "                operand: None,",
        "                line: 3,",
        "                column: 5",
        "            }",
        "        ),",
        "        Directive(",
        "            Directive {",
        "                name: \"RST\",",
        "                arguments: [\"1\", \"2\"],",
        "                line: 4,",
        "                column: 1",
        "            }",
        "        ),",
        "        MacroCall(...)",
        "        ,",
        "        MacroDefinition(...)",
        "        ",
        "    ]",
        "}",
        "======",
        "",
    ];
    assert_eq!(ast_debug_lines(&elements), expected);
    assert_eq!(
        ast_debug_lines(&vec![]),
        vec!["=== AST ===", "Program {", "    elements: [", "    ]", "}", "======", ""]
    );
}
