use asmodeus::cli::args::{Args, Mode};
use asmodeus::error::AsmodeusError;
use asmodeus::examples_manager::{
    categorize_examples, determine_category, example_list_row, find_example, handle_examples_command,
    parse_example_file, ExampleInfo, ExamplesCommand,
};
use asmodeus::template_generator::{
    categorize_templates, content_for_date, content_preview, date_for_seconds, determine_template_category,
    fill_template, find_template, generate_content_from_template, handle_new_command, next_steps_lines, parse_template_file,
    project_file_name, template_list_row, NewCommand, TemplateInfo,
};

fn args_with(mode: Mode, input: Option<&str>) -> Args {
    Args {
        mode,
        input_file: input.map(|s| s.to_string()),
        output_file: None,
        verbose: false,
        debug: false,
        extended: false,
        watch: false,
    }
}

fn usage_text(e: AsmodeusError) -> String {
    match e {
        AsmodeusError::UsageError(m) => m,
        other => panic!("expected a usage error, got {:?}", other),
    }
}

#[test]
fn examples_command_forms() {
    let list = |i: Option<&str>| handle_examples_command(&args_with(Mode::Examples, i));
    assert!(matches!(list(None), Ok(ExamplesCommand::List)));
    assert!(matches!(list(Some("list")), Ok(ExamplesCommand::List)));
    match list(Some("run hello")) {
        Ok(ExamplesCommand::Run(n)) => assert_eq!(n, "hello"),
        other => panic!("{:?}", other),
    }
    match list(Some("  factorial ")) {
        Ok(ExamplesCommand::Run(n)) => assert_eq!(n, "factorial"),
        other => panic!("{:?}", other),
    }
    assert_eq!(usage_text(list(Some("run")).unwrap_err()), "Usage: asmod examples run <example_name>");
    assert_eq!(
        usage_text(list(Some("a b c")).unwrap_err()),
        "Usage: asmod examples [list|run <name>|<name>]"
    );
    assert_eq!(
        usage_text(list(Some("")).unwrap_err()),
        "Usage: asmod examples [list|run <name>|<name>]"
    );
}

#[test]
fn example_categories_follow_the_directory() {
    assert_eq!(determine_category("examples/basic/hello.asmod"), "🎯 Basic");
    assert_eq!(determine_category("examples/arithmetic/add.asmod"), "🧮 Arithmetic");
    assert_eq!(determine_category("examples/extended_set/mul.asmod"), "⚡ Extended Set");
    assert_eq!(determine_category("examples/io/echo.asmod"), "💾 I/O Operations");
    assert_eq!(determine_category("examples/arrays/sum.asmod"), "📊 Arrays");
    assert_eq!(determine_category("examples/advanced/fact.asmod"), "🔧 Advanced");
    assert_eq!(determine_category("examples/errors/bad.asmod"), "❌ Error Examples");
    assert_eq!(determine_category("examples/misc/x.asmod"), "📁 misc");
    assert_eq!(determine_category("x.asmod"), "📄 Other");
}

#[test]
fn example_files_declare_a_title() {
    let info = parse_example_file(
        "examples/basic/hello.asmod",
        ";   example:   Hello, world  \n    POB one\n",
    )
    .unwrap();
    assert_eq!(info.name, "hello");
    assert_eq!(info.title, "Hello, world");
    assert_eq!(info.path, "examples/basic/hello.asmod");
    assert_eq!(info.category, "🎯 Basic");
    assert!(parse_example_file("a.asmod", "; just a comment\n").is_none());
    assert!(parse_example_file("a.asmod", "POB x\n; example: late\n").is_none());
    assert!(parse_example_file("a.asmod", "").is_none());
}

fn example(name: &str, category: &str) -> ExampleInfo {
    ExampleInfo {
        name: name.to_string(),
        title: format!("about {}", name),
        path: format!("examples/{}.asmod", name),
        category: category.to_string(),
    }
}

#[test]
fn examples_are_grouped_and_sorted() {
    let groups = categorize_examples(vec![
        example("zeta", "B"),
        example("alpha", "A"),
        example("mid", "B"),
        example("beta", "A"),
        example("Alpha", "B"),
    ]);
    let shape: Vec<(String, Vec<String>)> = groups
        .iter()
        .map(|(c, v)| (c.clone(), v.iter().map(|e| e.name.clone()).collect()))
        .collect();
    assert_eq!(
        shape,
        vec![
            ("B".to_string(), vec!["Alpha".to_string(), "mid".to_string(), "zeta".to_string()]),
            ("A".to_string(), vec!["alpha".to_string(), "beta".to_string()]),
        ]
    );
    assert!(categorize_examples(vec![]).is_empty());
}

#[test]
fn equal_names_keep_their_order() {
    let mut a = example("same", "C");
    a.title = "first".to_string();
    let mut b = example("same", "C");
    b.title = "second".to_string();
    let groups = categorize_examples(vec![example("z", "C"), a, b]);
    let titles: Vec<&str> = groups[0].1.iter().map(|e| e.title.as_str()).collect();
    assert_eq!(titles, vec!["first", "second", "about z"]);
}

#[test]
fn examples_are_found_by_name() {
    let all = vec![example("a", "X"), example("b", "X"), example("b", "Y")];
    assert_eq!(find_example(&all, "b"), Some(1));
    assert_eq!(find_example(&all, "c"), None);
}

#[test]
fn example_rows_are_aligned() {
    assert_eq!(example_list_row(&example("hello", "X")), "  hello                - about hello");
    let long = example("a_name_longer_than_twenty", "X");
    assert_eq!(example_list_row(&long), "  a_name_longer_than_twenty - about a_name_longer_than_twenty");
}

#[test]
fn new_command_forms() {
    let new = |i: Option<&str>| handle_new_command(&args_with(Mode::New, i));
    assert!(matches!(new(None), Ok(NewCommand::ShowHelp)));
    assert!(matches!(new(Some("--list")), Ok(NewCommand::ListTemplates)));
    match new(Some("proj")) {
        Ok(NewCommand::Create { name, template }) => {
            assert_eq!(name, "proj");
            assert_eq!(template, "hello");
        }
        other => panic!("{:?}", other),
    }
    match new(Some("calc1 --template calc")) {
        Ok(NewCommand::Create { name, template }) => {
            assert_eq!(name, "calc1");
            assert_eq!(template, "calc");
        }
        other => panic!("{:?}", other),
    }
    let msg = "Usage: asmod new <project_name> [--template <template_name>]";
    assert_eq!(usage_text(new(Some("a --template")).unwrap_err()), msg);
    assert_eq!(usage_text(new(Some("a --tmpl b")).unwrap_err()), msg);
    assert_eq!(usage_text(new(Some("")).unwrap_err()), msg);
}

#[test]
fn template_categories_follow_the_directory() {
    assert_eq!(determine_template_category("templates/basic/hello.asmod"), "🎯 Basic Templates");
    assert_eq!(determine_template_category("templates/arithmetic/c.asmod"), "🧮 Arithmetic Templates");
    assert_eq!(determine_template_category("templates/extended/c.asmod"), "⚡ Extended Templates");
    assert_eq!(determine_template_category("templates/io/c.asmod"), "💾 I/O Templates");
    assert_eq!(determine_template_category("templates/arrays/c.asmod"), "📊 Array Templates");
    assert_eq!(determine_template_category("templates/advanced/c.asmod"), "🔧 Advanced Templates");
    assert_eq!(determine_template_category("templates/other/c.asmod"), "📁 other");
    assert_eq!(determine_template_category("c.asmod"), "📄 Other");
}

const CALC: &str = "; template-title: Calculator\n; template-description:  Adds two numbers \n; template-requires-extended\n; template-content-start\n; {{PROJECT_NAME}} made {{DATE}}\nstart:\n    POB a\n";

#[test]
fn template_headers_are_read() {
    let t = parse_template_file("templates/arithmetic/calc.asmod", CALC).unwrap();
    assert_eq!(t.name, "calc");
    assert_eq!(t.title, "Calculator");
    assert_eq!(t.description, "Adds two numbers");
    assert_eq!(t.category, "🧮 Arithmetic Templates");
    assert!(t.requires_extended);
    assert!(!t.interactive_mode);
    assert_eq!(t.content, "; {{PROJECT_NAME}} made {{DATE}}\nstart:\n    POB a");
}

#[test]
fn template_content_starts_at_first_code_line() {
    let text = "; template-title: Echo\n; template-interactive-mode\n\n; a plain comment\nstart:\n  WPR 2\n";
    let t = parse_template_file("templates/io/echo.asmod", text).unwrap();
    assert!(t.interactive_mode);
    assert_eq!(t.description, "");
    assert_eq!(t.content, "start:\n  WPR 2");
    let only_header = "; template-title: Empty\n";
    assert_eq!(parse_template_file("e.asmod", only_header).unwrap().content, "; template-title: Empty");
    assert!(parse_template_file("x.asmod", "; template-description: no title\nPOB a\n").is_none());
    assert!(parse_template_file("x.asmod", "").is_none());
    assert!(parse_template_file("x.asmod", "POB a\n; template-title: late\n").is_none());
}

fn template(name: &str, category: &str, ext: bool, inter: bool) -> TemplateInfo {
    TemplateInfo {
        name: name.to_string(),
        title: format!("{} title", name),
        description: format!("{} does things", name),
        category: category.to_string(),
        content: "; {{PROJECT_NAME}} on {{DATE}}\n{{PROJECT_NAME}}: STP".to_string(),
        requires_extended: ext,
        interactive_mode: inter,
    }
}

#[test]
fn templates_are_found_by_name() {
    let all = vec![template("hello", "A", false, false), template("calc", "B", true, false)];
    assert_eq!(find_template(&all, "calc").unwrap(), 1);
    assert_eq!(
        usage_text(find_template(&all, "nope").unwrap_err()),
        "Unknown template: 'nope'. Use 'asmod new --list' to see available templates."
    );
}

#[test]
fn placeholders_are_filled() {
    assert_eq!(
        fill_template("; {{PROJECT_NAME}} on {{DATE}}\n{{PROJECT_NAME}}: STP", "demo", "2024-01-31"),
        "; demo on 2024-01-31\ndemo: STP"
    );
    assert_eq!(fill_template("{{DATE}}{{DATE}}", "x", "d"), "dd");
    assert_eq!(fill_template("{{PROJECT_NAME}", "x", "d"), "{{PROJECT_NAME}");
    assert_eq!(fill_template("{{PROJECT_NAME}}", "{{DATE}}", "d"), "d");
}

#[test]
fn generated_content_is_dated() {
    let t = template("hello", "A", false, false);
    let s = generate_content_from_template(&t, "demo").unwrap();
    let first = s.lines().next().unwrap();
    assert!(first.starts_with("; demo on "));
    let date = &first["; demo on ".len()..];
    let b = date.as_bytes();
    assert_eq!(b.len(), 10);
    assert_eq!((b[4], b[7]), (b'-', b'-'));
    assert!(b.iter().enumerate().all(|(i, c)| i == 4 || i == 7 || c.is_ascii_digit()));
    assert!(s.ends_with("\ndemo: STP"));
}

fn assert_date_shaped(date: &str) {
    let b = date.as_bytes();
    assert_eq!(b.len(), 10);
    assert_eq!((b[4], b[7]), (b'-', b'-'));
    assert!(b.iter().enumerate().all(|(i, c)| i == 4 || i == 7 || c.is_ascii_digit()));
}

#[test]
fn clock_readings_give_dates_up_to_year_9999() {
    assert_eq!(date_for_seconds(None), None);
    assert_eq!(date_for_seconds(Some(253402300800)), None);
    assert_eq!(date_for_seconds(Some(u64::MAX)), None);
    let epoch = date_for_seconds(Some(0)).unwrap();
    assert_date_shaped(&epoch);
    assert!(epoch == "1970-01-01" || epoch == "1969-12-31");
    let last = date_for_seconds(Some(253402300799)).unwrap();
    assert!(last.ends_with("9999-12-31") || last.ends_with("0000-01-01"));
    let mid = date_for_seconds(Some(1706659200)).unwrap();
    assert!(mid == "2024-01-30" || mid == "2024-01-31" || mid == "2024-02-01");
}

#[test]
fn content_is_filled_with_the_given_date() {
    let t = template("hello", "A", false, false);
    assert_eq!(
        content_for_date(&t, "demo", Some("2024-01-31".to_string())).unwrap(),
        "; demo on 2024-01-31\ndemo: STP"
    );
    match content_for_date(&t, "demo", None) {
        Err(AsmodeusError::IoError(m)) => {
            assert_eq!(m, "Could not read today's date from the system clock")
        }
        other => panic!("unexpected result: {:?}", other),
    }
}

#[test]
fn project_files_end_in_asmod() {
    assert_eq!(project_file_name("demo"), "demo.asmod");
}

#[test]
fn template_rows_and_steps() {
    assert_eq!(template_list_row(&template("calc", "B", true, false)), "  calc            - calc does things [extended]");
    assert_eq!(template_list_row(&template("echo", "B", false, true)), "  echo            - echo does things [interactive]");
    assert_eq!(template_list_row(&template("hello", "B", false, false)), "  hello           - hello does things");
    assert_eq!(
        next_steps_lines("p.asmod", &template("calc", "B", true, true)),
        vec![
            "   asmod run --extended p.asmod     # Run with extended instructions",
            "   asmod --watch --extended p.asmod # Watch with extended mode",
            "   asmod debug p.asmod             # Debug your program",
        ]
    );
    assert_eq!(
        next_steps_lines("p.asmod", &template("echo", "B", false, true)),
        vec![
            "   asmod interactive p.asmod        # Run in interactive mode",
            "   asmod --watch p.asmod           # Watch and auto-reload",
            "   asmod debug p.asmod             # Debug your program",
        ]
    );
    assert_eq!(
        next_steps_lines("p.asmod", &template("hello", "B", false, false)),
        vec![
            "   asmod run p.asmod               # Run your program",
            "   asmod --watch p.asmod           # Watch and auto-reload",
            "   asmod debug p.asmod             # Debug your program",
        ]
    );
}

#[test]
fn previews_show_fifteen_lines() {
    let rule = "-".repeat(50);
    assert_eq!(content_preview("a\nb"), vec![rule.clone(), "a\nb".to_string(), rule.clone()]);
    let long: String = (1..=20).map(|i| format!("line{}\n", i)).collect();
    let p = content_preview(&long);
    let shown: Vec<String> = (1..=15).map(|i| format!("line{}", i)).collect();
    assert_eq!(p, vec![rule.clone(), shown.join("\n"), "... (5 more lines)".to_string(), rule.clone()]);
    let exactly: String = (1..=15).map(|i| format!("l{}\n", i)).collect();
    assert_eq!(content_preview(&exactly).len(), 3);
}

#[test]
fn templates_are_grouped_and_sorted() {
    let groups = categorize_templates(vec![
        template("b", "X", false, false),
        template("a", "Y", false, false),
        template("a", "X", false, false),
    ]);
    let shape: Vec<(String, Vec<String>)> = groups
        .iter()
        .map(|(c, v)| (c.clone(), v.iter().map(|t| t.name.clone()).collect()))
        .collect();
    assert_eq!(
        shape,
        vec![
            ("X".to_string(), vec!["a".to_string(), "b".to_string()]),
            ("Y".to_string(), vec!["a".to_string()]),
        ]
    );
}

#[test]
fn command_shortcuts_agree() {
    let ex = |i: Option<&str>| format!("{:?}", handle_examples_command(&args_with(Mode::Examples, i)));
    assert_eq!(ex(Some("run hello")), ex(Some("hello")));
    assert_eq!(ex(Some("list")), ex(None));
    let new = |i: &str| format!("{:?}", handle_new_command(&args_with(Mode::New, Some(i))));
    assert_eq!(new("proj"), new("proj --template hello"));
}
