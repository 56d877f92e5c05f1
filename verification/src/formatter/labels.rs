//! Labels: a label glued to an instruction is split onto two lines, a label
//! with data keeps one line with normalised spacing.

use vstd::prelude::*;
use crate::text::{
    chars_of, extend_chars, find_char, find_char_in, lemma_find_char, starts_with,
    starts_with_exec, string_of, string_views, sub_chars, trim, trim_bounds, contains_char, is_ws,
    join, words, lemma_trim_chars, lemma_trim_twice, lemma_words_trim,
};
use crate::formatter::{indent, indent_chars, rpa, rpa_chars, rst, rst_chars};
use crate::formatter::comments::{
    line_with_comment, line_with_comment_chars, split_comment, split_comment_chars, COMMENT_COLUMN,
};
use crate::formatter::instructions::{
    formatted_statement, formatted_statement_chars, lemma_trimmed_spacing_defined,
    normalize_spacing, normalize_spacing_chars, spacing_defined, lemma_normalize_is_join,
};

verus! {

/// Whether something other than data (`RST`, `RPA`) or a comment follows the
/// first `:` of `t`.
pub open spec fn instruction_after_colon(t: Seq<char>) -> bool {
    match find_char(t, ':') {
        Some(k) => {
            let a = trim(t.skip(k + 1int));
            &&& a.len() > 0
            &&& !starts_with(a, rst())
            &&& !starts_with(a, rpa())
            &&& !starts_with(a, seq![';'])
        },
        None => false,
    }
}

/// A label glued to an instruction, as two lines: the label with its colon,
/// then the indented, formatted instruction (when there is one).
pub open spec fn separated(t: Seq<char>) -> Seq<Seq<char>> {
    match find_char(t, ':') {
        Some(k) => {
            let label = trim(t.take(k as int));
            let a = trim(t.skip(k + 1int));
            if a.len() > 0 {
                seq![label.push(':'), indent() + formatted_statement(a)]
            } else {
                seq![label.push(':')]
            }
        },
        None => seq![t],
    }
}

/// A label with data on one line: `label: DATA` with single spaces in the
/// data, and an aligned comment.
pub open spec fn label_with_data(t: Seq<char>) -> Seq<char> {
    match find_char(t, ':') {
        Some(k) => {
            let label = trim(t.take(k as int));
            let (data, comment) = split_comment(trim(t.skip(k + 1int)));
            let base = label + seq![':', ' '] + normalize_spacing(data);
            match comment {
                Some(c) => line_with_comment(base, c, COMMENT_COLUMN as nat),
                None => base,
            }
        },
        None => t,
    }
}

/// `instruction_after_colon` on characters.
pub fn instruction_after_colon_chars(v: &Vec<char>) -> (r: bool)
    ensures
        r == instruction_after_colon(v@),
{
    match find_char_in(v, ':') {
        Some(k) => {
            let (a, b) = trim_bounds(v, k + 1, v.len());
            assert(v@.subrange(k + 1, v.len() as int) =~= v@.skip(k + 1));
            let after = sub_chars(v, a, b);
            let semi = vec![';'];
            assert(semi@ =~= seq![';']);
            after.len() > 0 && !starts_with_exec(&after, &rst_chars()) && !starts_with_exec(
                &after,
                &rpa_chars(),
            ) && !starts_with_exec(&after, &semi)
        },
        None => false,
    }
}

/// `label_with_data` on characters.
pub fn label_with_data_chars(v: &Vec<char>) -> (r: Vec<char>)
    ensures
        r@ == label_with_data(v@),
{
    match find_char_in(v, ':') {
        Some(k) => {
            let (a, b) = trim_bounds(v, 0, k);
            let (c, d) = trim_bounds(v, k + 1, v.len());
            assert(v@.subrange(0, k as int) =~= v@.take(k as int));
            assert(v@.subrange(k + 1, v.len() as int) =~= v@.skip(k + 1));
            let mut base = sub_chars(v, a, b);
            let data_part = sub_chars(v, c, d);
            let (data, comment) = split_comment_chars(&data_part);
            proof {
                match find_char(data_part@, ';') {
                    Some(j) => lemma_trimmed_spacing_defined(data_part@.take(j as int)),
                    None => lemma_trimmed_spacing_defined(data_part@),
                }
            }
            base.push(':');
            base.push(' ');
            let nd = normalize_spacing_chars(&data);
            extend_chars(&mut base, &nd);
            assert(base@ =~= trim(v@.take(k as int)) + seq![':', ' '] + normalize_spacing(data@));
            match comment {
                Some(cm) => line_with_comment_chars(&base, &cm, COMMENT_COLUMN),
                None => base,
            }
        },
        None => sub_chars(v, 0, v.len()),
    }
}

/// Whether an instruction (not data, not only a comment) follows the label
/// on this line.
pub fn has_instruction_after_colon(line: &str) -> (r: bool)
    ensures
        r == instruction_after_colon(line@),
{
    let v = chars_of(line);
    instruction_after_colon_chars(&v)
}

/// Splits `label:INSTRUCTION` into the label line and the indented
/// instruction line.
pub fn separate_label_and_instruction(line: &str) -> (r: Vec<String>)
    ensures
        string_views(r@) == separated(line@),
{
    let v = chars_of(line);
    let mut result: Vec<String> = Vec::new();
    match find_char_in(&v, ':') {
        Some(k) => {
            let (a, b) = trim_bounds(&v, 0, k);
            let (c, d) = trim_bounds(&v, k + 1, v.len());
            assert(v@.subrange(0, k as int) =~= v@.take(k as int));
            assert(v@.subrange(k + 1, v.len() as int) =~= v@.skip(k + 1));
            let mut label = sub_chars(&v, a, b);
            label.push(':');
            result.push(string_of(&label));
            if d > c {
                let after = sub_chars(&v, c, d);
                let mut l2 = indent_chars();
                let f = formatted_statement_chars(&after);
                extend_chars(&mut l2, &f);
                result.push(string_of(&l2));
            }
        },
        None => {
            result.push(string_of(&v));
        },
    }
    assert(string_views(result@) =~= separated(line@));
    result
}

/// Formats `label: DATA ; comment` on one line.
pub fn format_label_with_data(line: &str) -> (r: String)
    ensures
        r@ == label_with_data(line@),
{
    let v = chars_of(line);
    string_of(&label_with_data_chars(&v))
}

/// Collapses the spacing of a data directive to single spaces.
pub fn normalize_data_spacing(data: &str) -> (r: String)
    requires
        spacing_defined(data@),
    ensures
        r@ == normalize_spacing(data@),
{
    let v = chars_of(data);
    string_of(&normalize_spacing_chars(&v))
}

/// For a line without `;` whose only whitespace is spaces, a label with
/// data is the trimmed label, `: ` and the words of the data joined by
/// single spaces; a line without `:` stays as it is.
pub proof fn law_label_with_data_words(t: Seq<char>)
    requires
        !contains_char(t, ';'),
        forall|i: int| 0 <= i < t.len() ==> is_ws(#[trigger] t[i]) ==> t[i] == ' ',
    ensures
        match find_char(t, ':') {
            None => label_with_data(t) == t,
            Some(k) => label_with_data(t) == trim(t.take(k as int)) + seq![':', ' '] + join(
                words(t.skip(k + 1int)),
                seq![' '],
            ),
        },
{
    lemma_find_char(t, ':');
    match find_char(t, ':') {
        Some(k) => {
            let after = t.skip(k + 1int);
            let dp = trim(after);
            lemma_trim_chars(after);
            lemma_trim_chars(dp);
            assert(!contains_char(dp, ';')) by {
                if contains_char(dp, ';') {
                    let i = choose|i: int| 0 <= i < dp.len() && dp[i] == ';';
                    let j = choose|j: int| 0 <= j < after.len() && after[j] == #[trigger] dp[i];
                    assert(t[k + 1 + j] == after[j]);
                }
            }
            lemma_find_char(dp, ';');
            let data = trim(dp);
            lemma_trim_twice(dp);
            assert forall|i: int| 0 <= i < data.len() implies is_ws(#[trigger] data[i]) ==> data[i]
                == ' ' by {
                let j = choose|j: int| 0 <= j < dp.len() && dp[j] == #[trigger] data[i];
                let l = choose|l: int| 0 <= l < after.len() && after[l] == #[trigger] dp[j];
                assert(t[k + 1 + l] == after[l]);
            }
            lemma_trim_twice(data);
            lemma_normalize_is_join(data);
            lemma_words_trim(dp);
            lemma_words_trim(after);
        },
        None => {},
    }
}

} // verus!
