//! Project templates: which command was given, what a template file
//! declares about itself, and how a new project's text is made from it.

use vstd::prelude::*;
use crate::cli::args::{opt_view, Args};
use crate::error::{is_usage_error, usage, AsmodeusError};
use crate::catalog::{categorized, group_by_category, group_views, Categorized, Named};
use crate::paths::{file_stem_or_unknown, parent_dir_name, parent_dir_name_of, stem_or_unknown};
use crate::text::{
    chars_of, decimal, decimal_exec, eq_str, join, join_exec, join_from_exec, lines, lines_of,
    pad_right, pad_right_exec, replace_all, replace_all_exec, starts_with, starts_with_exec,
    string_of, string_views, sub_chars, trim, trim_bounds, trim_chars, views, words, words_exec,
    no_ws, lemma_words_word, lemma_words_of_ws, lemma_words_concat,
};

verus! {

/// A project template found under `templates/`.
#[derive(Debug)]
pub struct TemplateInfo {
    pub name: String,
    pub title: String,
    pub description: String,
    pub category: String,
    pub content: String,
    pub requires_extended: bool,
    pub interactive_mode: bool,
}

impl Named for TemplateInfo {
    open spec fn name_view(&self) -> Seq<char> {
        self.name@
    }

    fn name(&self) -> (r: &String) {
        &self.name
    }
}

impl Categorized for TemplateInfo {
    open spec fn category_view(&self) -> Seq<char> {
        self.category@
    }

    fn category(&self) -> (r: &String) {
        &self.category
    }
}

/// What the new-project command asks for.
#[derive(Debug)]
pub enum NewCommand {
    /// Explain the command.
    ShowHelp,
    /// List the templates.
    ListTemplates,
    /// Create the project `name` from the template `template`.
    Create { name: String, template: String },
}

/// What `asmod new` with arguments `input` gives.
pub open spec fn new_outcome(input: Option<Seq<char>>, r: Result<NewCommand, AsmodeusError>) -> bool {
    match input {
        None => r matches Ok(NewCommand::ShowHelp),
        Some(s) => {
            let ws = words(s);
            if ws.len() == 1 && ws[0] == "--list"@ {
                r matches Ok(NewCommand::ListTemplates)
            } else if ws.len() == 1 {
                r matches Ok(NewCommand::Create { name, template }) && name@ == ws[0]
                    && template@ == "hello"@
            } else if ws.len() == 3 && ws[1] == "--template"@ {
                r matches Ok(NewCommand::Create { name, template }) && name@ == ws[0]
                    && template@ == ws[2]
            } else {
                r matches Err(e) && is_usage_error(
                    e,
                    "Usage: asmod new <project_name> [--template <template_name>]"@,
                )
            }
        },
    }
}

/// Decides what `asmod new ...` asks for: help, the template list, or a
/// new project (`NAME` with the `hello` template, or
/// `NAME --template TEMPLATE`).
pub fn handle_new_command(args: &Args) -> (r: Result<NewCommand, AsmodeusError>)
    ensures
        new_outcome(opt_view(args.input_file), r),
{
    match &args.input_file {
        None => Ok(NewCommand::ShowHelp),
        Some(arguments) => {
            let parts = words_exec(&chars_of(arguments.as_str()));
            let ghost ws = words(arguments@);
            assert(views(parts@) == ws);
            if parts.len() == 1 && eq_str(string_of(&parts[0]).as_str(), "--list") {
                Ok(NewCommand::ListTemplates)
            } else if parts.len() == 1 {
                assert(parts@[0]@ == ws[0]);
                Ok(NewCommand::Create { name: string_of(&parts[0]), template: "hello".to_owned() })
            } else if parts.len() == 3 && eq_str(string_of(&parts[1]).as_str(), "--template") {
                assert(parts@[0]@ == ws[0]);
                assert(parts@[2]@ == ws[2]);
                Ok(
                    NewCommand::Create {
                        name: string_of(&parts[0]),
                        template: string_of(&parts[2]),
                    },
                )
            } else {
                Err(usage("Usage: asmod new <project_name> [--template <template_name>]"))
            }
        },
    }
}

/// The category shown for templates in the directory `dir`.
pub open spec fn template_category(dir: Option<Seq<char>>) -> Seq<char> {
    match dir {
        Some(d) => if d == "basic"@ {
            "🎯 Basic Templates"@
        } else if d == "arithmetic"@ {
            "🧮 Arithmetic Templates"@
        } else if d == "extended"@ {
            "⚡ Extended Templates"@
        } else if d == "io"@ {
            "💾 I/O Templates"@
        } else if d == "arrays"@ {
            "📊 Array Templates"@
        } else if d == "advanced"@ {
            "🔧 Advanced Templates"@
        } else {
            "📁 "@ + d
        },
        None => "📄 Other"@,
    }
}

/// The category shown for templates in the directory named `dir`.
pub fn template_category_for_dir(dir: Option<&str>) -> (r: String)
    ensures
        r@ == template_category(
            match dir {
                Some(d) => Some(d@),
                None => None,
            },
        ),
{
    match dir {
        Some(d) => {
            if eq_str(d, "basic") {
                "🎯 Basic Templates".to_owned()
            } else if eq_str(d, "arithmetic") {
                "🧮 Arithmetic Templates".to_owned()
            } else if eq_str(d, "extended") {
                "⚡ Extended Templates".to_owned()
            } else if eq_str(d, "io") {
                "💾 I/O Templates".to_owned()
            } else if eq_str(d, "arrays") {
                "📊 Array Templates".to_owned()
            } else if eq_str(d, "advanced") {
                "🔧 Advanced Templates".to_owned()
            } else {
                let mut s = "📁 ".to_owned();
                s.append(d);
                s
            }
        },
        None => "📄 Other".to_owned(),
    }
}

/// The category of the template at `path`, from the directory that holds it.
pub fn determine_template_category(path: &str) -> (r: String)
    ensures
        r@ == template_category(parent_dir_name(path@)),
{
    match parent_dir_name_of(path) {
        Some(d) => template_category_for_dir(Some(d.as_str())),
        None => template_category_for_dir(None),
    }
}

/// What the header comments of a template declare.
pub ghost struct TemplateHeader {
    pub title: Seq<char>,
    pub description: Seq<char>,
    pub requires_extended: bool,
    pub interactive_mode: bool,
    pub content_start: nat,
}

/// The header read from line `i` of `ls` on: `; template-title: ...`,
/// `; template-description: ...`, `; template-requires-extended`,
/// `; template-interactive-mode`, up to `; template-content-start` (the
/// content begins after it) or the first line of code (the content begins
/// with it).
pub open spec fn scan_header(ls: Seq<Seq<char>>, i: nat, h: TemplateHeader) -> TemplateHeader
    decreases ls.len() - i,
{
    if i >= ls.len() {
        h
    } else {
        let line = trim(ls[i as int]);
        if starts_with(line, ";"@) {
            let t = trim(line.skip(";"@.len() as int));
            if starts_with(t, "template-title:"@) {
                scan_header(
                    ls,
                    i + 1,
                    TemplateHeader { title: trim(t.skip("template-title:"@.len() as int)), ..h },
                )
            } else if starts_with(t, "template-description:"@) {
                scan_header(
                    ls,
                    i + 1,
                    TemplateHeader {
                        description: trim(t.skip("template-description:"@.len() as int)),
                        ..h
                    },
                )
            } else if t == "template-requires-extended"@ {
                scan_header(ls, i + 1, TemplateHeader { requires_extended: true, ..h })
            } else if t == "template-interactive-mode"@ {
                scan_header(ls, i + 1, TemplateHeader { interactive_mode: true, ..h })
            } else if t == "template-content-start"@ {
                TemplateHeader { content_start: i + 1, ..h }
            } else {
                scan_header(ls, i + 1, h)
            }
        } else if line.len() > 0 {
            TemplateHeader { content_start: i, ..h }
        } else {
            scan_header(ls, i + 1, h)
        }
    }
}

/// The header of a template before any line is read.
pub open spec fn empty_header() -> TemplateHeader {
    TemplateHeader {
        title: seq![],
        description: seq![],
        requires_extended: false,
        interactive_mode: false,
        content_start: 0,
    }
}

/// Whether `info` is the template that the file `path` with text `content`
/// declares; the file declares one when it has a line and a non-empty title.
pub open spec fn template_declared(path: Seq<char>, content: Seq<char>, info: TemplateInfo) -> bool {
    let ls = lines(content);
    let h = scan_header(ls, 0, empty_header());
    &&& info.name@ == stem_or_unknown(path)
    &&& info.title@ == h.title
    &&& info.description@ == h.description
    &&& info.category@ == template_category(parent_dir_name(path))
    &&& info.content@ == join(ls.skip(h.content_start as int), seq!['\n'])
    &&& info.requires_extended == h.requires_extended
    &&& info.interactive_mode == h.interactive_mode
}

/// Whether the file with text `content` declares a template.
pub open spec fn declares_template(content: Seq<char>) -> bool {
    lines(content).len() > 0 && scan_header(lines(content), 0, empty_header()).title.len() > 0
}

/// Reads the template that the file `path` with text `content` declares.
pub fn parse_template_file(path: &str, content: &str) -> (r: Option<TemplateInfo>)
    ensures
        match r {
            Some(info) => declares_template(content@) && template_declared(path@, content@, info),
            None => !declares_template(content@),
        },
{
    let ls = lines_of(content);
    let ghost lv = ls@.map_values(|l: &str| l@);
    if ls.len() == 0 {
        return None;
    }
    let semi = chars_of(";");
    let k_title = chars_of("template-title:");
    let k_desc = chars_of("template-description:");
    let mut title: Vec<char> = Vec::new();
    let mut description: Vec<char> = Vec::new();
    let mut requires_extended = false;
    let mut interactive_mode = false;
    let mut content_start: usize = 0;
    let mut i: usize = 0;
    let mut done = false;
    while i < ls.len() && !done
        invariant
            i <= ls.len(),
            lv == ls@.map_values(|l: &str| l@),
            lv == lines(content@),
            semi@ == ";"@,
            k_title@ == "template-title:"@,
            k_desc@ == "template-description:"@,
            !done ==> scan_header(lv, 0, empty_header()) == scan_header(
                lv,
                i as nat,
                TemplateHeader {
                    title: title@,
                    description: description@,
                    requires_extended,
                    interactive_mode,
                    content_start: 0,
                },
            ),
            done ==> scan_header(lv, 0, empty_header()) == (TemplateHeader {
                title: title@,
                description: description@,
                requires_extended,
                interactive_mode,
                content_start: content_start as nat,
            }),
            done ==> content_start <= ls.len(),
            !done ==> content_start == 0,
        decreases ls.len() - i + (if done {
            0int
        } else {
            1int
        }),
    {
        assert(lv[i as int] == ls@[i as int]@);
        let line = trim_chars(&chars_of(ls[i]));
        if starts_with_exec(&line, &semi) {
            let (a, b) = trim_bounds(&line, semi.len(), line.len());
            assert(line@.subrange(semi.len() as int, line.len() as int) =~= line@.skip(
                semi.len() as int,
            ));
            let t = sub_chars(&line, a, b);
            let ts = string_of(&t);
            if starts_with_exec(&t, &k_title) {
                let (c, d) = trim_bounds(&t, k_title.len(), t.len());
                assert(t@.subrange(k_title.len() as int, t.len() as int) =~= t@.skip(
                    k_title.len() as int,
                ));
                title = sub_chars(&t, c, d);
            } else if starts_with_exec(&t, &k_desc) {
                let (c, d) = trim_bounds(&t, k_desc.len(), t.len());
                assert(t@.subrange(k_desc.len() as int, t.len() as int) =~= t@.skip(
                    k_desc.len() as int,
                ));
                description = sub_chars(&t, c, d);
            } else if eq_str(ts.as_str(), "template-requires-extended") {
                requires_extended = true;
            } else if eq_str(ts.as_str(), "template-interactive-mode") {
                interactive_mode = true;
            } else if eq_str(ts.as_str(), "template-content-start") {
                content_start = i + 1;
                done = true;
            }
        } else if line.len() > 0 {
            content_start = i;
            done = true;
        }
        if !done {
            i += 1;
        }
    }
    if title.len() == 0 {
        return None;
    }
    let mut words_of_lines: Vec<Vec<char>> = Vec::new();
    let mut k: usize = 0;
    while k < ls.len()
        invariant
            k <= ls.len(),
            lv == ls@.map_values(|l: &str| l@),
            views(words_of_lines@) == lv.take(k as int),
        decreases ls.len() - k,
    {
        let ghost w0 = views(words_of_lines@);
        words_of_lines.push(chars_of(ls[k]));
        assert(views(words_of_lines@) =~= w0.push(lv[k as int]));
        assert(lv.take(k + 1) =~= lv.take(k as int).push(lv[k as int]));
        k += 1;
    }
    assert(lv.take(ls.len() as int) =~= lv);
    assert(words_of_lines@.len() == ls@.len());
    let nl = vec!['\n'];
    assert(nl@ =~= seq!['\n']);
    let body = join_from_exec(&words_of_lines, content_start, &nl);
    Some(
        TemplateInfo {
            name: file_stem_or_unknown(path),
            title: string_of(&title),
            description: string_of(&description),
            category: determine_template_category(path),
            content: string_of(&body),
            requires_extended,
            interactive_mode,
        },
    )
}

/// The index of the template named `name`, or the usage error that names
/// the unknown template.
pub fn find_template(templates: &Vec<TemplateInfo>, template_name: &str) -> (r: Result<usize, AsmodeusError>)
    ensures
        match r {
            Ok(k) => k < templates.len() && templates@[k as int].name@ == template_name@
                && forall|j: int| 0 <= j < k ==> templates@[j].name@ != template_name@,
            Err(e) => (forall|j: int|
                0 <= j < templates.len() ==> templates@[j].name@ != template_name@)
                && is_usage_error(
                e,
                "Unknown template: '"@ + template_name@
                    + "'. Use 'asmod new --list' to see available templates."@,
            ),
        },
{
    let mut k: usize = 0;
    while k < templates.len()
        invariant
            k <= templates.len(),
            forall|j: int| 0 <= j < k ==> templates@[j].name@ != template_name@,
        decreases templates.len() - k,
    {
        if eq_str(templates[k].name.as_str(), template_name) {
            return Ok(k);
        }
        k += 1;
    }
    let mut msg = "Unknown template: '".to_owned();
    msg.append(template_name);
    msg.append("'. Use 'asmod new --list' to see available templates.");
    Err(AsmodeusError::UsageError(msg))
}

/// Whether `s` looks like a date written `YYYY-MM-DD`: it ends with two
/// digits, a dash, two digits, a dash, after at least four more characters.
pub open spec fn date_shaped(s: Seq<char>) -> bool {
    let n = s.len();
    let digit = |c: char| '0' as u32 <= c as u32 <= '9' as u32;
    &&& n >= 10
    &&& s[n - 6] == '-'
    &&& s[n - 3] == '-'
    &&& digit(s[n - 5]) && digit(s[n - 4]) && digit(s[n - 2]) && digit(s[n - 1])
}

/// The last second of the year 9999 in Unix time: the dates this library
/// asks chrono to write lie between the Unix epoch and it.
pub const LAST_DATED_SECOND: u64 = 253402300799;

/// A point in time of the system clock (std's `SystemTime`), carried
/// through as it is.
#[verifier::external_type_specification]
#[verifier::external_body]
pub struct ExSystemTime(std::time::SystemTime);

/// What the system clock reads now (std: `SystemTime::now()`). It depends
/// on the clock, so nothing is promised of it.
#[verifier::external_body]
fn clock_now() -> (r: std::time::SystemTime) {
    std::time::SystemTime::now()
}

/// The whole seconds from the Unix epoch to `t` (std:
/// `SystemTime::duration_since(UNIX_EPOCH)`, as seconds); none when `t` is
/// before the epoch. Nothing more is promised: the result depends on `t`,
/// which Verus cannot see into.
#[verifier::external_body]
fn seconds_since_epoch(t: &std::time::SystemTime) -> (r: Option<u64>) {
    t.duration_since(std::time::UNIX_EPOCH).ok().map(|d| d.as_secs())
}

/// The local date at `secs` seconds after the Unix epoch, written
/// `YYYY-MM-DD` (chrono: `DateTime::from_timestamp`, then `with_timezone`
/// to `Local` and `format("%Y-%m-%d")`). `from_timestamp` gives a time for
/// every second up to the end of the year 9999, and `with_timezone` and
/// `format` always give a value, so a date comes back; chrono writes `%Y`
/// with at least four digits (a sign in front outside 0 to 9999) and `%m`,
/// `%d` with two, so it has this shape. Which date comes back depends on
/// the machine's time zone; the contract does not say it. It also leaves
/// unsaid that chrono's time-zone lookup expects the zone data it reads
/// from the system to be well formed.
#[verifier::external_body]
fn local_date(secs: u64) -> (r: Option<String>)
    requires
        secs <= LAST_DATED_SECOND,
    ensures
        r is Some,
        r matches Some(d) ==> date_shaped(d@),
{
    chrono::DateTime::from_timestamp(secs as i64, 0)
        .map(|t| t.with_timezone(&chrono::Local).format("%Y-%m-%d").to_string())
}

/// Whether the clock reading `secs` (seconds since the Unix epoch, none
/// when the clock reads a time before it) is one this library writes a
/// date for: one up to the end of the year 9999.
pub open spec fn datable(secs: Option<u64>) -> bool {
    secs matches Some(s) && s <= LAST_DATED_SECOND
}

/// The local date, as `YYYY-MM-DD`, of a clock reading given as seconds
/// since the Unix epoch: a date for every reading from the epoch to the end
/// of the year 9999, none for a reading before the epoch (`None`) or after
/// that year.
pub fn date_for_seconds(secs: Option<u64>) -> (r: Option<String>)
    ensures
        datable(secs) ==> (r matches Some(d) && date_shaped(d@)),
        !datable(secs) ==> r is None,
{
    match secs {
        Some(s) => if s <= LAST_DATED_SECOND {
            local_date(s)
        } else {
            None
        },
        None => None,
    }
}

/// The error given when today's date cannot be read.
pub open spec fn no_date_message() -> Seq<char> {
    "Could not read today's date from the system clock"@
}

/// The text of a new project: the template's text with `{{PROJECT_NAME}}`
/// replaced by the project's name, then `{{DATE}}` by `date`.
pub open spec fn filled_template(content: Seq<char>, project_name: Seq<char>, date: Seq<char>) -> Seq<
    char,
> {
    replace_all(
        replace_all(content, "{{PROJECT_NAME}}"@, project_name),
        "{{DATE}}"@,
        date,
    )
}

/// Fills in a template's placeholders.
pub fn fill_template(content: &str, project_name: &str, date: &str) -> (r: String)
    ensures
        r@ == filled_template(content@, project_name@, date@),
{
    let p1 = chars_of("{{PROJECT_NAME}}");
    let p2 = chars_of("{{DATE}}");
    proof {
        reveal_strlit("{{PROJECT_NAME}}");
        reveal_strlit("{{DATE}}");
    }
    let first = replace_all_exec(&chars_of(content), &p1, &chars_of(project_name));
    string_of(&replace_all_exec(&first, &p2, &chars_of(date)))
}

/// The text of a new project made from `template` and dated `date`: the
/// template filled in when there is a date, and an I/O error saying that
/// today's date could not be read when there is none.
pub fn content_for_date(template: &TemplateInfo, project_name: &str, date: Option<String>) -> (r: Result<String, AsmodeusError>)
    ensures
        match date {
            Some(d) => r matches Ok(s) && s@ == filled_template(template.content@, project_name@, d@),
            None => r matches Err(AsmodeusError::IoError(m)) && m@ == no_date_message(),
        },
{
    match date {
        Some(d) => Ok(fill_template(template.content.as_str(), project_name, d.as_str())),
        None => Err(AsmodeusError::IoError("Could not read today's date from the system clock".to_owned())),
    }
}

/// The text of a new project made from `template`, dated today: the clock
/// is read, its reading turned into a local date by `date_for_seconds`, and
/// the template filled in by `content_for_date`. Whatever the clock reads,
/// the result is the template filled in with some `YYYY-MM-DD` date, or the
/// I/O error for a reading that gives no date.
pub fn generate_content_from_template(template: &TemplateInfo, project_name: &str) -> (r: Result<String, AsmodeusError>)
    ensures
        match r {
            Ok(s) => exists|d: Seq<char>|
                date_shaped(d) && s@ == filled_template(template.content@, project_name@, d),
            Err(e) => e matches AsmodeusError::IoError(m) && m@ == no_date_message(),
        },
{
    let now = clock_now();
    let secs = seconds_since_epoch(&now);
    let date = date_for_seconds(secs);
    content_for_date(template, project_name, date)
}

/// The file a new project is written to: its name with `.asmod`.
pub fn project_file_name(name: &str) -> (r: String)
    ensures
        r@ == name@ + ".asmod"@,
{
    let mut f = name.to_owned();
    f.append(".asmod");
    f
}

/// The templates grouped by category (groups in the order of their first
/// template), each group sorted by name.
pub fn categorize_templates(templates: Vec<TemplateInfo>) -> (r: Vec<(String, Vec<TemplateInfo>)>)
    ensures
        group_views(r@) == categorized(templates@),
{
    group_by_category(templates)
}

/// The mark after a template's description: `[extended]` or
/// `[interactive]`, or nothing.
pub open spec fn template_flag(requires_extended: bool, interactive_mode: bool) -> Seq<char> {
    if requires_extended {
        " [extended]"@
    } else if interactive_mode {
        " [interactive]"@
    } else {
        seq![]
    }
}

/// The row that lists a template: its name padded to 15 characters, its
/// description and its mark.
pub open spec fn template_row(t: TemplateInfo) -> Seq<char> {
    "  "@ + pad_right(t.name@, 15) + " - "@ + t.description@ + template_flag(
        t.requires_extended,
        t.interactive_mode,
    )
}

/// The row that lists `template` in the catalog.
pub fn template_list_row(template: &TemplateInfo) -> (r: String)
    ensures
        r@ == template_row(*template),
{
    let mut r = "  ".to_owned();
    r.append(string_of(&pad_right_exec(&chars_of(template.name.as_str()), 15)).as_str());
    r.append(" - ");
    r.append(template.description.as_str());
    if template.requires_extended {
        r.append(" [extended]");
    } else if template.interactive_mode {
        r.append(" [interactive]");
    }
    r
}

/// The commands suggested after creating the project file `f` from a
/// template with these marks.
pub open spec fn next_steps(f: Seq<char>, requires_extended: bool, interactive_mode: bool) -> Seq<
    Seq<char>,
> {
    (if requires_extended {
        seq![
            "   asmod run --extended "@ + f + "     # Run with extended instructions"@,
            "   asmod --watch --extended "@ + f + " # Watch with extended mode"@,
        ]
    } else if interactive_mode {
        seq![
            "   asmod interactive "@ + f + "        # Run in interactive mode"@,
            "   asmod --watch "@ + f + "           # Watch and auto-reload"@,
        ]
    } else {
        seq![
            "   asmod run "@ + f + "               # Run your program"@,
            "   asmod --watch "@ + f + "           # Watch and auto-reload"@,
        ]
    }) + seq!["   asmod debug "@ + f + "             # Debug your program"@]
}

/// `prefix`, then `f`, then `suffix`.
fn framed(prefix: &str, f: &str, suffix: &str) -> (r: String)
    ensures
        r@ == prefix@ + f@ + suffix@,
{
    let mut r = prefix.to_owned();
    r.append(f);
    r.append(suffix);
    r
}

/// The commands suggested after creating `filename` from `template`.
pub fn next_steps_lines(filename: &str, template: &TemplateInfo) -> (r: Vec<String>)
    ensures
        string_views(r@) == next_steps(
            filename@,
            template.requires_extended,
            template.interactive_mode,
        ),
{
    let mut r: Vec<String> = Vec::new();
    if template.requires_extended {
        r.push(framed("   asmod run --extended ", filename, "     # Run with extended instructions"));
        r.push(framed("   asmod --watch --extended ", filename, " # Watch with extended mode"));
    } else if template.interactive_mode {
        r.push(framed("   asmod interactive ", filename, "        # Run in interactive mode"));
        r.push(framed("   asmod --watch ", filename, "           # Watch and auto-reload"));
    } else {
        r.push(framed("   asmod run ", filename, "               # Run your program"));
        r.push(framed("   asmod --watch ", filename, "           # Watch and auto-reload"));
    }
    r.push(framed("   asmod debug ", filename, "             # Debug your program"));
    assert(string_views(r@) =~= next_steps(
        filename@,
        template.requires_extended,
        template.interactive_mode,
    ));
    r
}

/// A rule of fifty dashes.
pub open spec fn rule() -> Seq<char> {
    Seq::new(50, |i: int| '-')
}

/// The preview of a new project's text: a rule, its first fifteen lines,
/// how many lines are not shown (when any are not), and a rule.
pub open spec fn preview(content: Seq<char>) -> Seq<Seq<char>> {
    let ls = lines(content);
    let shown = if ls.len() > 15 {
        ls.take(15)
    } else {
        ls
    };
    seq![rule(), join(shown, seq!['\n'])] + (if ls.len() > 15 {
        seq!["... ("@ + decimal((ls.len() - 15) as nat) + " more lines)"@]
    } else {
        seq![]
    }) + seq![rule()]
}

/// The preview of `content` shown in verbose mode, line by line.
pub fn content_preview(content: &str) -> (r: Vec<String>)
    ensures
        string_views(r@) == preview(content@),
{
    let ls = lines_of(content);
    let ghost lv = ls@.map_values(|l: &str| l@);
    let n = ls.len();
    let shown_count: usize = if n > 15 {
        15
    } else {
        n
    };
    let mut shown: Vec<Vec<char>> = Vec::new();
    let mut i: usize = 0;
    while i < shown_count
        invariant
            i <= shown_count <= n == ls@.len(),
            lv == ls@.map_values(|l: &str| l@),
            views(shown@) == lv.take(i as int),
        decreases shown_count - i,
    {
        let ghost before = views(shown@);
        shown.push(chars_of(ls[i]));
        assert(views(shown@) =~= before.push(lv[i as int]));
        i += 1;
        assert(lv.take(i as int) =~= before.push(lv[i - 1]));
    }
    assert(lv.take(n as int) =~= lv);
    let mut bar: Vec<char> = Vec::new();
    let mut k: usize = 0;
    while k < 50
        invariant
            k <= 50,
            bar@ == Seq::new(k as nat, |j: int| '-'),
        decreases 50 - k,
    {
        bar.push('-');
        k += 1;
        assert(bar@ =~= Seq::new(k as nat, |j: int| '-'));
    }
    let mut r: Vec<String> = Vec::new();
    r.push(string_of(&bar));
    let nl = vec!['\n'];
    assert(nl@ =~= seq!['\n']);
    r.push(string_of(&join_exec(&shown, &nl)));
    if n > 15 {
        r.push(framed("... (", string_of(&decimal_exec((n - 15) as u64)).as_str(), " more lines)"));
    }
    r.push(string_of(&bar));
    assert(string_views(r@) =~= preview(content@));
    r
}

/// `new NAME` asks for the same thing as `new NAME --template hello`, for a
/// name that is one word other than `--list`.
pub proof fn law_new_default_template(name: Seq<char>, r: Result<NewCommand, AsmodeusError>)
    requires
        name.len() > 0,
        no_ws(name),
        name != "--list"@,
    ensures
        new_outcome(Some(name), r) == new_outcome(Some(name + " --template hello"@), r),
{
    reveal_strlit(" --template hello");
    reveal_strlit("--template");
    reveal_strlit("hello");
    let t = "--template"@;
    let h = "hello"@;
    let sp = seq![' '];
    assert(name + " --template hello"@ =~= name + (sp + (t + (sp + h))));
    lemma_words_word(name);
    lemma_words_word(t);
    lemma_words_word(h);
    lemma_words_of_ws(sp);
    lemma_words_concat(sp, h);
    lemma_words_concat(t, sp + h);
    lemma_words_concat(sp, t + (sp + h));
    lemma_words_concat(name, sp + (t + (sp + h)));
    assert(words(name + " --template hello"@) =~= seq![name, t, h]);
}

} // verus!
