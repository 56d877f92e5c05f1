//! Instructions and directives: one space between the mnemonic and its
//! arguments, and an aligned comment.

use vstd::prelude::*;
use crate::text::{
    all_ws, chars_of, contains_char, contains_char_in, extend_chars, find_char, is_ws, join,
    join_from_exec, lemma_trim, lemma_words_empty, string_of, sub_chars, trim, words, words_exec,
    lemma_two_words, lemma_join_first, lemma_words_word,
};
use crate::formatter::comments::{
    line_with_comment, line_with_comment_chars, split_comment, split_comment_chars, COMMENT_COLUMN,
};

verus! {

/// Whether normalising the spacing of `t` is defined: a `t` with a space in
/// it must hold a word (its first word is read).
pub open spec fn spacing_defined(t: Seq<char>) -> bool {
    contains_char(t, ' ') ==> !all_ws(t)
}

/// The words of `t` joined by single spaces, the first word always followed
/// by one space, when `t` holds a space; `t` itself otherwise.
pub open spec fn normalize_spacing(t: Seq<char>) -> Seq<char> {
    if contains_char(t, ' ') {
        let ws = words(t);
        ws[0] + seq![' '] + join(ws.skip(1), seq![' '])
    } else {
        t
    }
}

/// An instruction or directive with normalised spacing and, if it has one,
/// its comment aligned at the comment column.
pub open spec fn formatted_statement(t: Seq<char>) -> Seq<char> {
    let (code, comment) = split_comment(t);
    let f = normalize_spacing(code);
    match comment {
        Some(c) => line_with_comment(f, c, COMMENT_COLUMN as nat),
        None => f,
    }
}

/// A trimmed text always satisfies `spacing_defined`.
pub proof fn lemma_trimmed_spacing_defined(s: Seq<char>)
    ensures
        spacing_defined(trim(s)),
{
    lemma_trim(s);
    let t = trim(s);
    if contains_char(t, ' ') {
        assert(!is_ws(t[0]));
    }
}

/// `normalize_spacing` on characters.
pub fn normalize_spacing_chars(v: &Vec<char>) -> (r: Vec<char>)
    requires
        spacing_defined(v@),
    ensures
        r@ == normalize_spacing(v@),
{
    if contains_char_in(v, ' ') {
        let ws = words_exec(v);
        proof {
            lemma_words_empty(v@);
        }
        let mut r = sub_chars(&ws[0], 0, ws[0].len());
        assert(ws[0]@.subrange(0, ws[0].len() as int) =~= ws[0]@);
        r.push(' ');
        let sep = vec![' '];
        let rest = join_from_exec(&ws, 1, &sep);
        extend_chars(&mut r, &rest);
        assert(sep@ =~= seq![' ']);
        assert(r@ =~= normalize_spacing(v@));
        r
    } else {
        sub_chars(v, 0, v.len())
    }
}

/// `formatted_statement` on characters.
pub fn formatted_statement_chars(v: &Vec<char>) -> (r: Vec<char>)
    ensures
        r@ == formatted_statement(v@),
{
    let (code, comment) = split_comment_chars(v);
    proof {
        match find_char(v@, ';') {
            Some(k) => lemma_trimmed_spacing_defined(v@.take(k as int)),
            None => lemma_trimmed_spacing_defined(v@),
        }
    }
    let f = normalize_spacing_chars(&code);
    match comment {
        Some(c) => line_with_comment_chars(&f, &c, COMMENT_COLUMN),
        None => f,
    }
}

/// Formats an instruction: single spaces between its parts and an aligned
/// comment.
pub fn format_instruction(instruction: &str) -> (r: String)
    ensures
        r@ == formatted_statement(instruction@),
{
    let v = chars_of(instruction);
    string_of(&formatted_statement_chars(&v))
}

/// Formats a directive the same way as an instruction.
pub fn format_directive(directive: &str) -> (r: String)
    ensures
        r@ == formatted_statement(directive@),
{
    let v = chars_of(directive);
    string_of(&formatted_statement_chars(&v))
}

/// Collapses the spacing of an instruction to single spaces.
pub fn normalize_instruction_spacing(text: &str) -> (r: String)
    requires
        spacing_defined(text@),
    ensures
        r@ == normalize_spacing(text@),
{
    let v = chars_of(text);
    string_of(&normalize_spacing_chars(&v))
}

/// A trimmed text whose only whitespace is spaces normalises to its words
/// joined by single spaces.
pub proof fn lemma_normalize_is_join(t: Seq<char>)
    requires
        t == trim(t),
        forall|i: int| 0 <= i < t.len() ==> is_ws(#[trigger] t[i]) ==> t[i] == ' ',
    ensures
        normalize_spacing(t) == join(words(t), seq![' ']),
{
    if contains_char(t, ' ') {
        let j = choose|j: int| 0 <= j < t.len() && t[j] == ' ';
        lemma_two_words(t, j);
        lemma_join_first(words(t), seq![' ']);
    } else if t.len() > 0 {
        assert(crate::text::no_ws(t)) by {
            assert forall|i: int| 0 <= i < t.len() implies !is_ws(#[trigger] t[i]) by {
                if is_ws(t[i]) {
                    assert(t[i] == ' ');
                }
            }
        }
        lemma_words_word(t);
    } else {
        lemma_words_empty(t);
    }
}

} // verus!
