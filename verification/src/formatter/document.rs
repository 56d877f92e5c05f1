//! Whole documents: each line is classified and formatted, runs of empty
//! lines are compressed, and the result ends with one line ending.

use vstd::prelude::*;
use crate::text::{
    all_ws, chars_of, contains_char, contains_char_in, contains_str, contains_str_in, join,
    lemma_trim, lines, lines_of, str_views, string_of, string_views, sub_chars, trim,
    trim_bounds, trim_chars,
};
use crate::formatter::{indent, indent_chars, rpa, rpa_chars, rst, rst_chars};
use crate::formatter::instructions::{format_directive, format_instruction, formatted_statement};
use crate::formatter::labels::{
    format_label_with_data, has_instruction_after_colon, instruction_after_colon,
    label_with_data, separate_label_and_instruction, separated,
};
use crate::formatter::arrays::{
    array_block, array_next, array_starts, format_array_block, is_array_start, lemma_rst_run_bound,
};

verus! {

/// The number of empty lines at the end of `out`.
pub open spec fn trailing_empty(out: Seq<Seq<char>>) -> nat
    decreases out.len(),
{
    if out.len() > 0 && out.last().len() == 0 {
        1 + trailing_empty(out.drop_last())
    } else {
        0
    }
}

/// `out` with one more empty line, unless it already ends with two.
pub open spec fn push_blank(out: Seq<Seq<char>>) -> Seq<Seq<char>> {
    if trailing_empty(out) < 2 {
        out.push(seq![])
    } else {
        out
    }
}

/// `s` without its spaces.
pub open spec fn remove_spaces(s: Seq<char>) -> Seq<char>
    decreases s.len(),
{
    if s.len() == 0 {
        s
    } else if s.last() == ' ' {
        remove_spaces(s.drop_last())
    } else {
        remove_spaces(s.drop_last()).push(s.last())
    }
}

/// The formatted form of the trimmed, non-empty line `t` that is not a
/// comment, where it is not an array (arrays span several lines).
pub open spec fn formatted_code_line(t: Seq<char>) -> Seq<Seq<char>> {
    if contains_char(t, ':') && instruction_after_colon(t) {
        separated(t)
    } else if contains_char(t, ':') && (contains_str(t, rst()) || contains_str(t, rpa())) {
        seq![label_with_data(t)]
    } else if t.last() == ':' {
        seq![remove_spaces(t)]
    } else {
        seq![indent() + formatted_statement(t)]
    }
}

/// Whether line `i`, trimmed to the non-empty, non-comment `t`, starts an array.
pub open spec fn starts_array_here(ls: Seq<Seq<char>>, i: nat, t: Seq<char>) -> bool {
    &&& !(contains_char(t, ':') && instruction_after_colon(t))
    &&& contains_char(t, ':') && (contains_str(t, rst()) || contains_str(t, rpa()))
    &&& array_starts(ls, i as int)
}

/// The formatted lines of `ls` from line `i` on, appended to `out`;
/// `found` records whether a line of code (not a comment) came before.
pub open spec fn format_from(ls: Seq<Seq<char>>, i: nat, found: bool, out: Seq<Seq<char>>) -> Seq<
    Seq<char>,
>
    decreases ls.len() - i,
{
    if i >= ls.len() {
        out
    } else {
        let t = trim(ls[i as int]);
        if t.len() == 0 {
            format_from(ls, i + 1, found, push_blank(out))
        } else if t[0] == ';' {
            format_from(
                ls,
                i + 1,
                found,
                out.push(
                    if found {
                        indent() + t
                    } else {
                        t
                    },
                ),
            )
        } else if starts_array_here(ls, i, t) {
            proof {
                lemma_rst_run_bound(ls, i + 1);
            }
            format_from(ls, array_next(ls, i), true, out + array_block(ls, i))
        } else {
            format_from(ls, i + 1, true, out + formatted_code_line(t))
        }
    }
}

/// The lines of `out` without its trailing empty lines, then one empty line
/// if any remain, joined by line endings.
pub open spec fn finalized(out: Seq<Seq<char>>) -> Seq<char> {
    let kept = out.take(out.len() - trailing_empty(out));
    if kept.len() > 0 {
        join(kept.push(seq![]), seq!['\n'])
    } else {
        seq![]
    }
}

/// The formatted form of a whole document.
pub open spec fn formatted_document(content: Seq<char>) -> Seq<char> {
    if all_ws(content) {
        seq!['\n']
    } else {
        finalized(format_from(lines(content), 0, false, seq![]))
    }
}

pub proof fn lemma_trailing_empty_bound(out: Seq<Seq<char>>)
    ensures
        trailing_empty(out) <= out.len(),
    decreases out.len(),
{
    if out.len() > 0 && out.last().len() == 0 {
        lemma_trailing_empty_bound(out.drop_last());
    }
}

/// The number of empty strings at the end of `lines`.
fn trailing_empty_count(lines: &Vec<String>) -> (r: usize)
    ensures
        r == trailing_empty(string_views(lines@)),
{
    let ghost ls = string_views(lines@);
    let mut k = lines.len();
    assert(ls.take(k as int) =~= ls);
    while k > 0 && lines[k - 1].as_str().is_empty()
        invariant
            k <= lines.len(),
            ls == string_views(lines@),
            trailing_empty(ls) == (lines.len() - k) + trailing_empty(ls.take(k as int)),
        decreases k,
    {
        assert(ls.take(k as int).drop_last() =~= ls.take(k - 1));
        k -= 1;
    }
    lines.len() - k
}

/// Adds an empty line unless two already end `formatted_lines`.
fn handle_empty_line(formatted_lines: &mut Vec<String>)
    ensures
        string_views(final(formatted_lines)@) == push_blank(string_views(old(formatted_lines)@)),
{
    let consecutive_empty = trailing_empty_count(formatted_lines);
    if consecutive_empty < 2 {
        formatted_lines.push(String::new());
        assert(string_views(formatted_lines@) =~= push_blank(
            string_views(old(formatted_lines)@),
        ));
    }
}

/// Adds a comment line: indented once code has been seen, as is before.
fn handle_comment(
    formatted_lines: &mut Vec<String>,
    trimmed: &str,
    found_first_code: bool,
    indent: &str,
)
    ensures
        string_views(final(formatted_lines)@) == string_views(old(formatted_lines)@).push(
            if found_first_code {
                indent@ + trimmed@
            } else {
                trimmed@
            },
        ),
{
    let line = if found_first_code {
        let mut l = indent.to_owned();
        l.append(trimmed);
        l
    } else {
        trimmed.to_owned()
    };
    formatted_lines.push(line);
    assert(string_views(formatted_lines@) =~= string_views(old(formatted_lines)@).push(line@));
}

/// Drops trailing empty lines, ends with one line ending, and joins.
fn finalize_output(formatted_lines: &mut Vec<String>) -> (r: String)
    ensures
        r@ == finalized(string_views(old(formatted_lines)@)),
{
    let ghost ls = string_views(formatted_lines@);
    let n = trailing_empty_count(formatted_lines);
    proof {
        lemma_trailing_empty_bound(ls);
    }
    let keep = formatted_lines.len() - n;
    formatted_lines.truncate(keep);
    assert(string_views(formatted_lines@) =~= ls.take(ls.len() - trailing_empty(ls)));
    let ghost kept = string_views(formatted_lines@);
    if formatted_lines.len() > 0 {
        formatted_lines.push(String::new());
        assert(string_views(formatted_lines@) =~= kept.push(seq![]));
    }
    let ghost joined = string_views(formatted_lines@);
    let mut r = String::new();
    let mut i: usize = 0;
    while i < formatted_lines.len()
        invariant
            i <= formatted_lines.len(),
            joined == string_views(formatted_lines@),
            r@ == join(joined.take(i as int), seq!['\n']),
        decreases formatted_lines.len() - i,
    {
        assert(joined.take(i + 1).drop_last() =~= joined.take(i as int));
        if i > 0 {
            r.append("\n");
            assert("\n"@ == seq!['\n']) by {
                reveal_strlit("\n");
            }
        } else {
            assert(r@ =~= Seq::<char>::empty());
        }
        r.append(formatted_lines[i].as_str());
        i += 1;
        assert(r@ =~= join(joined.take(i as int), seq!['\n']));
    }
    assert(joined.take(formatted_lines.len() as int) =~= joined);
    assert(kept == ls.take(ls.len() - trailing_empty(ls)));
    assert(kept.len() == 0 ==> r@ =~= Seq::<char>::empty());
    r
}

/// `s` without its spaces (`str::replace(' ', "")`).
fn remove_spaces_chars(v: &Vec<char>) -> (r: Vec<char>)
    ensures
        r@ == remove_spaces(v@),
{
    let mut r: Vec<char> = Vec::new();
    let mut i: usize = 0;
    while i < v.len()
        invariant
            i <= v.len(),
            r@ == remove_spaces(v@.take(i as int)),
        decreases v.len() - i,
    {
        assert(v@.take(i + 1).drop_last() =~= v@.take(i as int));
        if v[i] != ' ' {
            r.push(v[i]);
        }
        i += 1;
    }
    assert(v@.take(v.len() as int) =~= v@);
    r
}

/// Formats a whole Asmodeus source: comments before the first code stay at
/// the margin and later ones are indented, labels go to the margin,
/// instructions and directives are indented with single spaces and aligned
/// comments, arrays are written one value per line, at most two empty lines
/// stand together, and the result ends with one line ending.
pub fn format_assembly_content(content: &str) -> (r: String)
    ensures
        r@ == formatted_document(content@),
{
    let cv = chars_of(content);
    let (ca, cb) = trim_bounds(&cv, 0, cv.len());
    assert(cv@.subrange(0, cv.len() as int) =~= cv@);
    proof {
        lemma_trim(content@);
    }
    if ca == cb {
        let mut nl = String::new();
        nl.append("\n");
        proof {
            reveal_strlit("\n");
        }
        assert(nl@ =~= seq!['\n']);
        return nl;
    }
    let lines = lines_of(content);
    let ghost ls = str_views(lines@);
    let mut formatted_lines: Vec<String> = Vec::new();
    let indent = "    ";
    proof {
        reveal_strlit("    ");
    }
    assert(indent@ =~= crate::formatter::indent());
    let mut found_first_code = false;
    let mut i: usize = 0;
    assert(string_views(formatted_lines@) =~= Seq::<Seq<char>>::empty());
    while i < lines.len()
        invariant
            i <= lines@.len(),
            ls == str_views(lines@),
            ls == crate::text::lines(content@),
            indent@ == crate::formatter::indent(),
            format_from(ls, 0, false, seq![]) == format_from(
                ls,
                i as nat,
                found_first_code,
                string_views(formatted_lines@),
            ),
        decreases lines@.len() - i,
    {
        let line = lines[i];
        let v = chars_of(line);
        let (a, b) = trim_bounds(&v, 0, v.len());
        assert(v@.subrange(0, v.len() as int) =~= v@);
        let trimmed = line.substring_char(a, b);
        let t = sub_chars(&v, a, b);
        let ghost out0 = string_views(formatted_lines@);
        if t.len() == 0 {
            handle_empty_line(&mut formatted_lines);
            i += 1;
            continue;
        }
        if t[0] != ';' && !found_first_code {
            found_first_code = true;
        }
        if t[0] == ';' {
            handle_comment(&mut formatted_lines, trimmed, found_first_code, indent);
            i += 1;
            continue;
        }
        if contains_char_in(&t, ':') && has_instruction_after_colon(trimmed) {
            let mut separated_lines = separate_label_and_instruction(trimmed);
            formatted_lines.append(&mut separated_lines);
            assert(string_views(formatted_lines@) =~= out0 + formatted_code_line(t@));
            i += 1;
            continue;
        }
        if contains_char_in(&t, ':') && (contains_str_in(&t, &rst_chars()) || contains_str_in(
            &t,
            &rpa_chars(),
        )) {
            if is_array_start(&lines, i) {
                let ghost i0 = i;
                proof {
                    lemma_rst_run_bound(ls, (i + 1) as nat);
                }
                let mut processed = format_array_block(&lines, &mut i);
                formatted_lines.append(&mut processed);
                assert(string_views(formatted_lines@) =~= out0 + array_block(ls, i0 as nat));
            } else {
                formatted_lines.push(format_label_with_data(trimmed));
                assert(string_views(formatted_lines@) =~= out0 + formatted_code_line(t@));
                i += 1;
            }
            continue;
        }
        if t[t.len() - 1] == ':' {
            formatted_lines.push(string_of(&remove_spaces_chars(&t)));
            assert(string_views(formatted_lines@) =~= out0 + formatted_code_line(t@));
            i += 1;
            continue;
        }
        let mut code_line = indent.to_owned();
        if t[0] == '.' {
            code_line.append(format_directive(trimmed).as_str());
        } else {
            code_line.append(format_instruction(trimmed).as_str());
        }
        formatted_lines.push(code_line);
        assert(string_views(formatted_lines@) =~= out0 + formatted_code_line(t@));
        i += 1;
    }
    finalize_output(&mut formatted_lines)
}

} // verus!
