//! The example programs: which command was given, what an example file
//! declares about itself, and how the catalog is ordered.

use vstd::prelude::*;
use crate::cli::args::{opt_view, Args};
use crate::error::{is_usage_error, usage, AsmodeusError};
use crate::catalog::{categorized, group_by_category, group_views, Categorized, Named};
use crate::paths::{file_stem_or_unknown, parent_dir_name, parent_dir_name_of, stem_or_unknown};
use crate::text::{
    chars_of, eq_str, lines, lines_of, pad_right, pad_right_exec, starts_with, starts_with_exec,
    string_of, sub_chars, trim, trim_bounds, words, words_exec, views, no_ws, lemma_words_word,
    lemma_words_of_ws, lemma_words_concat,
};

verus! {

/// An example program found under `examples/`.
#[derive(Debug)]
pub struct ExampleInfo {
    pub name: String,
    pub title: String,
    pub path: String,
    pub category: String,
}

impl Named for ExampleInfo {
    open spec fn name_view(&self) -> Seq<char> {
        self.name@
    }

    fn name(&self) -> (r: &String) {
        &self.name
    }
}

impl Categorized for ExampleInfo {
    open spec fn category_view(&self) -> Seq<char> {
        self.category@
    }

    fn category(&self) -> (r: &String) {
        &self.category
    }
}

/// What the examples command asks for.
#[derive(Debug)]
pub enum ExamplesCommand {
    /// List the examples.
    List,
    /// Run the example with this name.
    Run(String),
}

/// What the examples command with arguments `input` gives.
pub open spec fn examples_outcome(input: Option<Seq<char>>, r: Result<ExamplesCommand, AsmodeusError>) -> bool {
    match input {
        None => r matches Ok(ExamplesCommand::List),
        Some(s) => if s == "list"@ {
            r matches Ok(ExamplesCommand::List)
        } else {
            let ws = words(s);
            if ws.len() == 2 && ws[0] == "run"@ {
                r matches Ok(ExamplesCommand::Run(n)) && n@ == ws[1]
            } else if ws.len() == 1 && ws[0] == "run"@ {
                r matches Err(e) && is_usage_error(e, "Usage: asmod examples run <example_name>"@)
            } else if ws.len() == 1 {
                r matches Ok(ExamplesCommand::Run(n)) && n@ == ws[0]
            } else {
                r matches Err(e) && is_usage_error(
                    e,
                    "Usage: asmod examples [list|run <name>|<name>]"@,
                )
            }
        },
    }
}

/// Decides what `asmod examples ...` asks for: listing, or running one
/// example (`run NAME` or just `NAME`).
pub fn handle_examples_command(args: &Args) -> (r: Result<ExamplesCommand, AsmodeusError>)
    ensures
        examples_outcome(opt_view(args.input_file), r),
{
    match &args.input_file {
        None => Ok(ExamplesCommand::List),
        Some(sub_command) => {
            if eq_str(sub_command.as_str(), "list") {
                return Ok(ExamplesCommand::List);
            }
            let parts = words_exec(&chars_of(sub_command.as_str()));
            let ghost ws = words(sub_command@);
            assert(views(parts@) == ws);
            if parts.len() == 2 && eq_str(string_of(&parts[0]).as_str(), "run") {
                assert(parts@[1]@ == ws[1]);
                Ok(ExamplesCommand::Run(string_of(&parts[1])))
            } else if parts.len() == 1 && eq_str(string_of(&parts[0]).as_str(), "run") {
                Err(usage("Usage: asmod examples run <example_name>"))
            } else if parts.len() == 1 {
                assert(parts@[0]@ == ws[0]);
                Ok(ExamplesCommand::Run(string_of(&parts[0])))
            } else {
                Err(usage("Usage: asmod examples [list|run <name>|<name>]"))
            }
        },
    }
}

/// The category shown for examples in the directory `dir`.
pub open spec fn example_category(dir: Option<Seq<char>>) -> Seq<char> {
    match dir {
        Some(d) => if d == "basic"@ {
            "🎯 Basic"@
        } else if d == "arithmetic"@ {
            "🧮 Arithmetic"@
        } else if d == "extended_set"@ {
            "⚡ Extended Set"@
        } else if d == "io"@ {
            "💾 I/O Operations"@
        } else if d == "arrays"@ {
            "📊 Arrays"@
        } else if d == "advanced"@ {
            "🔧 Advanced"@
        } else if d == "errors"@ {
            "❌ Error Examples"@
        } else {
            "📁 "@ + d
        },
        None => "📄 Other"@,
    }
}

/// The category shown for examples in the directory named `dir`.
pub fn category_for_dir(dir: Option<&str>) -> (r: String)
    ensures
        r@ == example_category(
            match dir {
                Some(d) => Some(d@),
                None => None,
            },
        ),
{
    match dir {
        Some(d) => {
            if eq_str(d, "basic") {
                "🎯 Basic".to_owned()
            } else if eq_str(d, "arithmetic") {
                "🧮 Arithmetic".to_owned()
            } else if eq_str(d, "extended_set") {
                "⚡ Extended Set".to_owned()
            } else if eq_str(d, "io") {
                "💾 I/O Operations".to_owned()
            } else if eq_str(d, "arrays") {
                "📊 Arrays".to_owned()
            } else if eq_str(d, "advanced") {
                "🔧 Advanced".to_owned()
            } else if eq_str(d, "errors") {
                "❌ Error Examples".to_owned()
            } else {
                let mut s = "📁 ".to_owned();
                s.append(d);
                s
            }
        },
        None => "📄 Other".to_owned(),
    }
}

/// The category of the example at `path`, from the directory that holds it.
pub fn determine_category(path: &str) -> (r: String)
    ensures
        r@ == example_category(parent_dir_name(path@)),
{
    match parent_dir_name_of(path) {
        Some(d) => category_for_dir(Some(d.as_str())),
        None => category_for_dir(None),
    }
}

/// The first line of `content`, or nothing.
pub open spec fn first_line(content: Seq<char>) -> Seq<char> {
    if lines(content).len() > 0 {
        lines(content)[0]
    } else {
        seq![]
    }
}

/// The title that an example declares on its first line, `; example: TITLE`.
pub open spec fn example_title(content: Seq<char>) -> Option<Seq<char>> {
    let first = first_line(content);
    if starts_with(first, ";"@) {
        let t = trim(first.skip(";"@.len() as int));
        if starts_with(t, "example:"@) {
            Some(trim(t.skip("example:"@.len() as int)))
        } else {
            None
        }
    } else {
        None
    }
}

/// The title of the example whose text is `content`, if it declares one.
pub fn example_title_of(content: &str) -> (r: Option<String>)
    ensures
        opt_view(r) == example_title(content@),
{
    let ls = lines_of(content);
    let first = if ls.len() > 0 {
        chars_of(ls[0])
    } else {
        Vec::new()
    };
    assert(first@ == first_line(content@)) by {
        if ls.len() > 0 {
            assert(ls@.map_values(|l: &str| l@)[0] == ls@[0]@);
        }
    }
    let semi = chars_of(";");
    if !starts_with_exec(&first, &semi) {
        return None;
    }
    let (a, b) = trim_bounds(&first, semi.len(), first.len());
    assert(first@.subrange(semi.len() as int, first.len() as int) =~= first@.skip(
        semi.len() as int,
    ));
    let t = sub_chars(&first, a, b);
    let key = chars_of("example:");
    if !starts_with_exec(&t, &key) {
        return None;
    }
    let (c, d) = trim_bounds(&t, key.len(), t.len());
    assert(t@.subrange(key.len() as int, t.len() as int) =~= t@.skip(key.len() as int));
    Some(string_of(&sub_chars(&t, c, d)))
}

/// What an example file declares: its name (the file name without
/// extension), title, path and category; nothing when the first line does
/// not declare a title.
pub fn parse_example_file(path: &str, content: &str) -> (r: Option<ExampleInfo>)
    ensures
        match example_title(content@) {
            None => r is None,
            Some(t) => r matches Some(info) && info.title@ == t && info.name@ == stem_or_unknown(
                path@,
            ) && info.path@ == path@ && info.category@ == example_category(
                parent_dir_name(path@),
            ),
        },
{
    match example_title_of(content) {
        None => None,
        Some(title) => {
            let name = file_stem_or_unknown(path);
            let category = determine_category(path);
            Some(ExampleInfo { name, title, path: path.to_owned(), category })
        },
    }
}

/// The examples grouped by category (groups in the order of their first
/// example), each group sorted by name.
pub fn categorize_examples(examples: Vec<ExampleInfo>) -> (r: Vec<(String, Vec<ExampleInfo>)>)
    ensures
        group_views(r@) == categorized(examples@),
{
    group_by_category(examples)
}

/// The index of the first example named `name`.
pub fn find_example(examples: &Vec<ExampleInfo>, name: &str) -> (r: Option<usize>)
    ensures
        match r {
            Some(k) => k < examples.len() && examples@[k as int].name@ == name@ && forall|j: int|
                0 <= j < k ==> examples@[j].name@ != name@,
            None => forall|j: int| 0 <= j < examples.len() ==> examples@[j].name@ != name@,
        },
{
    let mut k: usize = 0;
    while k < examples.len()
        invariant
            k <= examples.len(),
            forall|j: int| 0 <= j < k ==> examples@[j].name@ != name@,
        decreases examples.len() - k,
    {
        if eq_str(examples[k].name.as_str(), name) {
            return Some(k);
        }
        k += 1;
    }
    None
}

/// The row that lists an example: its name padded to 20 characters, then
/// its title.
pub open spec fn example_row(name: Seq<char>, title: Seq<char>) -> Seq<char> {
    "  "@ + pad_right(name, 20) + " - "@ + title
}

/// The row that lists `example` in the catalog.
pub fn example_list_row(example: &ExampleInfo) -> (r: String)
    ensures
        r@ == example_row(example.name@, example.title@),
{
    let mut r = "  ".to_owned();
    r.append(string_of(&pad_right_exec(&chars_of(example.name.as_str()), 20)).as_str());
    r.append(" - ");
    r.append(example.title.as_str());
    r
}

/// `examples run NAME` and `examples NAME` ask for the same thing, for a
/// name that is one word other than `list` and `run`; `examples list` asks
/// for the same as `examples` alone.
pub proof fn law_examples_shortcuts(name: Seq<char>, r: Result<ExamplesCommand, AsmodeusError>)
    requires
        name.len() > 0,
        no_ws(name),
        name != "list"@,
        name != "run"@,
    ensures
        examples_outcome(Some("run "@ + name), r) == examples_outcome(Some(name), r),
        examples_outcome(Some("list"@), r) == examples_outcome(None, r),
{
    reveal_strlit("run ");
    reveal_strlit("run");
    reveal_strlit("list");
    let run = "run"@;
    assert("run "@ =~= run + seq![' ']);
    assert("run "@ + name =~= run + (seq![' '] + name));
    lemma_words_word(run);
    lemma_words_word(name);
    lemma_words_of_ws(seq![' ']);
    lemma_words_concat(seq![' '], name);
    lemma_words_concat(run, seq![' '] + name);
    assert(words("run "@ + name) =~= seq![run, name]);
    assert("run "@ + name != "list"@) by {
        assert(("run "@ + name).len() > 4 || ("run "@ + name)[0] != "list"@[0]);
    }
}

} // verus!
