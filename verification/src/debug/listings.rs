//! The debug listings of a program's tokens and syntax tree, printed with
//! `--debug`. The tokens and elements are given as plain values: kinds and
//! addressing modes by the names their types print (`{:?}`), a directive's
//! arguments by the list text that `{:?}` prints for them.

use vstd::prelude::*;
use crate::text::{decimal, decimal_exec, string_of, string_views};

verus! {

/// A token of the lexer: its kind's name, its text, and where it stands.
#[derive(Debug)]
pub struct TokenView {
    pub kind: String,
    pub value: String,
    pub line: usize,
    pub column: usize,
}

/// An element of the syntax tree.
#[derive(Debug)]
pub enum AstElementView {
    /// A label definition.
    Label { name: String, line: usize, column: usize },
    /// An instruction, with its operand's addressing mode name and value.
    Instruction { opcode: String, operand: Option<(String, String)>, line: usize, column: usize },
    /// A directive, with its arguments as a list text.
    Directive { name: String, arguments: String, line: usize, column: usize },
    /// A macro definition (shown without detail).
    MacroDefinition,
    /// A macro call (shown without detail).
    MacroCall,
}

/// The lines that show the token numbered `n` (counting from one).
pub open spec fn token_lines(n: nat, t: TokenView) -> Seq<Seq<char>> {
    seq![
        "Token "@ + decimal(n) + " {"@,
        "    kind: "@ + t.kind@ + ","@,
        "    value: \""@ + t.value@ + "\","@,
        "    line: "@ + decimal(t.line as nat) + ","@,
        "    column: "@ + decimal(t.column as nat),
        "},"@,
    ]
}

/// The lines of the first `n` tokens.
pub open spec fn tokens_body(ts: Seq<TokenView>, n: nat) -> Seq<Seq<char>>
    decreases n,
{
    if n == 0 {
        seq![]
    } else {
        tokens_body(ts, (n - 1) as nat) + token_lines(n, ts[n - 1])
    }
}

/// The token listing: a header, each token, a closing rule and an empty line.
pub open spec fn token_listing(ts: Seq<TokenView>) -> Seq<Seq<char>> {
    seq!["=== TOKENS ==="@] + tokens_body(ts, ts.len()) + seq!["======"@, Seq::<char>::empty()]
}

/// The lines that show the operand of an instruction.
pub open spec fn operand_lines(operand: Option<(String, String)>) -> Seq<Seq<char>> {
    match operand {
        Some((mode, value)) => seq![
            "                operand: Some(Operand {"@,
            "                    addressing_mode: "@ + mode@ + ","@,
            "                    value: \""@ + value@ + "\""@,
            "                }),"@,
        ],
        None => seq!["                operand: None,"@],
    }
}

/// The lines that show element `e`; `last` tells whether it ends the list
/// (the others are followed by a comma).
pub open spec fn element_lines(e: AstElementView, last: bool) -> Seq<Seq<char>> {
    let end: Seq<char> = if last {
        seq![]
    } else {
        ","@
    };
    match e {
        AstElementView::Label { name, line, column } => seq![
            "        LabelDefinition("@,
            "            LabelDefinition {"@,
            "                name: \""@ + name@ + "\","@,
            "                line: "@ + decimal(line as nat) + ","@,
            "                column: "@ + decimal(column as nat),
            "            }"@,
            "        )"@ + end,
        ],
        AstElementView::Instruction { opcode, operand, line, column } => seq![
            "        Instruction("@,
            "            Instruction {"@,
            "                opcode: \""@ + opcode@ + "\","@,
        ] + operand_lines(operand) + seq![
            "                line: "@ + decimal(line as nat) + ","@,
            "                column: "@ + decimal(column as nat),
            "            }"@,
            "        )"@ + end,
        ],
        AstElementView::Directive { name, arguments, line, column } => seq![
            "        Directive("@,
            "            Directive {"@,
            "                name: \""@ + name@ + "\","@,
            "                arguments: "@ + arguments@ + ","@,
            "                line: "@ + decimal(line as nat) + ","@,
            "                column: "@ + decimal(column as nat),
            "            }"@,
            "        )"@ + end,
        ],
        AstElementView::MacroDefinition => seq![
            "        MacroDefinition(...)"@,
            "        "@ + end,
        ],
        AstElementView::MacroCall => seq!["        MacroCall(...)"@, "        "@ + end],
    }
}

/// The lines of the first `n` of the elements `es`.
pub open spec fn elements_body(es: Seq<AstElementView>, n: nat) -> Seq<Seq<char>>
    decreases n,
{
    if n == 0 {
        seq![]
    } else {
        elements_body(es, (n - 1) as nat) + element_lines(es[n - 1], n == es.len())
    }
}

/// The syntax-tree listing: a header, each element, and the closing lines.
pub open spec fn ast_listing(es: Seq<AstElementView>) -> Seq<Seq<char>> {
    seq!["=== AST ==="@, "Program {"@, "    elements: ["@] + elements_body(es, es.len()) + seq![
        "    ]"@,
        "}"@,
        "======"@,
        Seq::<char>::empty(),
    ]
}

/// `a`, then `b`, then `c`.
fn cat3(a: &str, b: &str, c: &str) -> (r: String)
    ensures
        r@ == a@ + b@ + c@,
{
    let mut r = a.to_owned();
    r.append(b);
    r.append(c);
    r
}

/// `n` in decimal.
fn dec(n: usize) -> (r: String)
    ensures
        r@ == decimal(n as nat),
{
    string_of(&decimal_exec(n as u64))
}

/// Appends `more` to `out`.
fn push_all(out: &mut Vec<String>, more: Vec<String>)
    ensures
        string_views(final(out)@) == string_views(old(out)@) + string_views(more@),
{
    let mut more = more;
    let ghost start = string_views(out@);
    let ghost all = string_views(more@);
    let mut k: usize = 0;
    let n = more.len();
    while k < n
        invariant
            n == more.len(),
            all == string_views(more@),
            k <= n,
            string_views(out@) == start + all.take(k as int),
        decreases n - k,
    {
        let s = more[k].clone();
        let ghost before = string_views(out@);
        out.push(s);
        assert(string_views(out@) =~= before.push(all[k as int]));
        k += 1;
        assert(all.take(k as int) =~= all.take(k - 1).push(all[k - 1]));
    }
    assert(all.take(n as int) =~= all);
}

fn token_lines_exec(n: usize, t: &TokenView) -> (r: Vec<String>)
    ensures
        string_views(r@) == token_lines(n as nat, *t),
{
    let r = vec![
        cat3("Token ", dec(n).as_str(), " {"),
        cat3("    kind: ", t.kind.as_str(), ","),
        cat3("    value: \"", t.value.as_str(), "\","),
        cat3("    line: ", dec(t.line).as_str(), ","),
        cat3("    column: ", dec(t.column).as_str(), ""),
        "},".to_owned(),
    ];
    proof {
        reveal_strlit("");
    }
    assert(string_views(r@) =~= token_lines(n as nat, *t));
    r
}

/// The lines of the token listing, in the order they are printed.
pub fn token_debug_lines(tokens: &Vec<TokenView>) -> (r: Vec<String>)
    ensures
        string_views(r@) == token_listing(tokens@),
{
    let mut r: Vec<String> = vec!["=== TOKENS ===".to_owned()];
    let mut i: usize = 0;
    while i < tokens.len()
        invariant
            i <= tokens.len(),
            string_views(r@) == seq!["=== TOKENS ==="@] + tokens_body(tokens@, i as nat),
        decreases tokens.len() - i,
    {
        let more = token_lines_exec(i + 1, &tokens[i]);
        push_all(&mut r, more);
        i += 1;
        assert(tokens_body(tokens@, i as nat) == tokens_body(tokens@, (i - 1) as nat)
            + token_lines(i as nat, tokens@[i - 1]));
    }
    let ghost before = string_views(r@);
    r.push("======".to_owned());
    r.push(String::new());
    assert(string_views(r@) =~= before + seq!["======"@, Seq::<char>::empty()]);
    r
}

fn operand_lines_exec(operand: &Option<(String, String)>) -> (r: Vec<String>)
    ensures
        string_views(r@) == operand_lines(*operand),
{
    match operand {
        Some((mode, value)) => {
            let r = vec![
                "                operand: Some(Operand {".to_owned(),
                cat3("                    addressing_mode: ", mode.as_str(), ","),
                cat3("                    value: \"", value.as_str(), "\""),
                "                }),".to_owned(),
            ];
            assert(string_views(r@) =~= operand_lines(*operand));
            r
        },
        None => {
            let r = vec!["                operand: None,".to_owned()];
            assert(string_views(r@) =~= operand_lines(*operand));
            r
        },
    }
}

fn element_lines_exec(e: &AstElementView, last: bool) -> (r: Vec<String>)
    ensures
        string_views(r@) == element_lines(*e, last),
{
    let end = if last {
        ""
    } else {
        ","
    };
    proof {
        reveal_strlit("");
    }
    assert(end@ == (if last {
        Seq::<char>::empty()
    } else {
        ","@
    }));
    match e {
        AstElementView::Label { name, line, column } => {
            let r = vec![
                "        LabelDefinition(".to_owned(),
                "            LabelDefinition {".to_owned(),
                cat3("                name: \"", name.as_str(), "\","),
                cat3("                line: ", dec(*line).as_str(), ","),
                cat3("                column: ", dec(*column).as_str(), ""),
                "            }".to_owned(),
                cat3("        )", end, ""),
            ];
            assert(string_views(r@) =~= element_lines(*e, last));
            r
        },
        AstElementView::Instruction { opcode, operand, line, column } => {
            let mut r = vec![
                "        Instruction(".to_owned(),
                "            Instruction {".to_owned(),
                cat3("                opcode: \"", opcode.as_str(), "\","),
            ];
            let ghost head = string_views(r@);
            push_all(&mut r, operand_lines_exec(operand));
            let tail = vec![
                cat3("                line: ", dec(*line).as_str(), ","),
                cat3("                column: ", dec(*column).as_str(), ""),
                "            }".to_owned(),
                cat3("        )", end, ""),
            ];
            let ghost tv = string_views(tail@);
            push_all(&mut r, tail);
            assert(string_views(r@) =~= element_lines(*e, last));
            r
        },
        AstElementView::Directive { name, arguments, line, column } => {
            let r = vec![
                "        Directive(".to_owned(),
                "            Directive {".to_owned(),
                cat3("                name: \"", name.as_str(), "\","),
                cat3("                arguments: ", arguments.as_str(), ","),
                cat3("                line: ", dec(*line).as_str(), ","),
                cat3("                column: ", dec(*column).as_str(), ""),
                "            }".to_owned(),
                cat3("        )", end, ""),
            ];
            assert(string_views(r@) =~= element_lines(*e, last));
            r
        },
        AstElementView::MacroDefinition => {
            let r = vec!["        MacroDefinition(...)".to_owned(), cat3("        ", end, "")];
            assert(string_views(r@) =~= element_lines(*e, last));
            r
        },
        AstElementView::MacroCall => {
            let r = vec!["        MacroCall(...)".to_owned(), cat3("        ", end, "")];
            assert(string_views(r@) =~= element_lines(*e, last));
            r
        },
    }
}

/// The lines of the syntax-tree listing, in the order they are printed.
pub fn ast_debug_lines(elements: &Vec<AstElementView>) -> (r: Vec<String>)
    ensures
        string_views(r@) == ast_listing(elements@),
{
    let mut r: Vec<String> = vec![
        "=== AST ===".to_owned(),
        "Program {".to_owned(),
        "    elements: [".to_owned(),
    ];
    let ghost head = seq!["=== AST ==="@, "Program {"@, "    elements: ["@];
    assert(string_views(r@) =~= head + elements_body(elements@, 0));
    let mut i: usize = 0;
    while i < elements.len()
        invariant
            i <= elements.len(),
            head == seq!["=== AST ==="@, "Program {"@, "    elements: ["@],
            string_views(r@) == head + elements_body(elements@, i as nat),
        decreases elements.len() - i,
    {
        let last = i + 1 == elements.len();
        let more = element_lines_exec(&elements[i], last);
        push_all(&mut r, more);
        i += 1;
        assert(elements_body(elements@, i as nat) == elements_body(elements@, (i - 1) as nat)
            + element_lines(elements@[i - 1], i == elements@.len()));
    }
    let ghost before = string_views(r@);
    r.push("    ]".to_owned());
    r.push("}".to_owned());
    r.push("======".to_owned());
    r.push(String::new());
    assert(string_views(r@) =~= before + seq!["    ]"@, "}"@, "======"@, Seq::<char>::empty()]);
    r
}

} // verus!
