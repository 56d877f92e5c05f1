//! Comments: splitting them off a line and aligning them.

use vstd::prelude::*;
use crate::text::{
    chars_of, extend_chars, find_char, find_char_in, is_ws, is_ws_char, pad_right, pad_right_exec,
    string_of, sub_chars, trim, trim_bounds, all_ws, contains_char, trim_start, lemma_trim,
    lemma_trim_parts, lemma_find_char,
};

verus! {

/// The column to which the code before a trailing comment is padded.
pub const COMMENT_COLUMN: usize = 20;

/// A line split at its first `;`: the trimmed code before it and, if there is
/// a `;`, the trimmed comment starting with it.
pub open spec fn split_comment(t: Seq<char>) -> (Seq<char>, Option<Seq<char>>) {
    match find_char(t, ';') {
        Some(k) => (trim(t.take(k as int)), Some(trim(t.skip(k as int)))),
        None => (trim(t), None),
    }
}

/// A comment with one space inserted after a `;` that is directly followed
/// by a character other than whitespace.
pub open spec fn fixed_comment(c: Seq<char>) -> Seq<char> {
    if c.len() > 1 && c[0] == ';' && !is_ws(c[1]) {
        seq![';', ' '] + c.drop_first()
    } else {
        c
    }
}

/// `base` padded to `width` characters, a space, then the fixed comment.
pub open spec fn line_with_comment(base: Seq<char>, comment: Seq<char>, width: nat) -> Seq<char> {
    pad_right(base, width) + seq![' '] + fixed_comment(comment)
}

/// Splits `text` at its first `;` into trimmed code and trimmed comment.
pub fn split_instruction_and_comment(text: &str) -> (r: (&str, Option<&str>))
    ensures
        r.0@ == split_comment(text@).0,
        match r.1 {
            Some(c) => split_comment(text@).1 == Some(c@),
            None => split_comment(text@).1 is None,
        },
{
    let v = chars_of(text);
    match find_char_in(&v, ';') {
        Some(k) => {
            let (a, b) = trim_bounds(&v, 0, k);
            let (c, d) = trim_bounds(&v, k, v.len());
            assert(v@.subrange(0, k as int) =~= v@.take(k as int));
            assert(v@.subrange(k as int, v.len() as int) =~= v@.skip(k as int));
            (text.substring_char(a, b), Some(text.substring_char(c, d)))
        },
        None => {
            let (a, b) = trim_bounds(&v, 0, v.len());
            assert(v@.subrange(0, v.len() as int) =~= v@);
            (text.substring_char(a, b), None)
        },
    }
}

/// `split_comment` on characters.
pub fn split_comment_chars(v: &Vec<char>) -> (r: (Vec<char>, Option<Vec<char>>))
    ensures
        r.0@ == split_comment(v@).0,
        match r.1 {
            Some(c) => split_comment(v@).1 == Some(c@),
            None => split_comment(v@).1 is None,
        },
{
    match find_char_in(v, ';') {
        Some(k) => {
            let (a, b) = trim_bounds(v, 0, k);
            let (c, d) = trim_bounds(v, k, v.len());
            assert(v@.subrange(0, k as int) =~= v@.take(k as int));
            assert(v@.subrange(k as int, v.len() as int) =~= v@.skip(k as int));
            (sub_chars(v, a, b), Some(sub_chars(v, c, d)))
        },
        None => {
            let (a, b) = trim_bounds(v, 0, v.len());
            assert(v@.subrange(0, v.len() as int) =~= v@);
            (sub_chars(v, a, b), None)
        },
    }
}

/// `fixed_comment` on characters.
pub fn fixed_comment_chars(c: &Vec<char>) -> (r: Vec<char>)
    ensures
        r@ == fixed_comment(c@),
{
    if c.len() > 1 && c[0] == ';' && !is_ws_char(c[1]) {
        let mut r: Vec<char> = Vec::new();
        r.push(';');
        r.push(' ');
        let rest = sub_chars(c, 1, c.len());
        extend_chars(&mut r, &rest);
        assert(r@ =~= seq![';', ' '] + c@.drop_first());
        r
    } else {
        sub_chars(c, 0, c.len())
    }
}

/// `line_with_comment` on characters.
pub fn line_with_comment_chars(base: &Vec<char>, comment: &Vec<char>, width: usize) -> (r: Vec<char>)
    ensures
        r@ == line_with_comment(base@, comment@, width as nat),
{
    let mut r = pad_right_exec(base, width);
    r.push(' ');
    let f = fixed_comment_chars(comment);
    extend_chars(&mut r, &f);
    r
}

/// Puts one space after the `;` of a comment that lacks it.
pub fn fix_comment_spacing(comment: &str) -> (r: String)
    ensures
        r@ == fixed_comment(comment@),
{
    let c = chars_of(comment);
    string_of(&fixed_comment_chars(&c))
}

/// `base_content` padded to `min_width` characters, a space, and the comment
/// with its spacing fixed.
pub fn format_line_with_comment(base_content: &str, comment: &str, min_width: usize) -> (r: String)
    ensures
        r@ == line_with_comment(base_content@, comment@, min_width as nat),
{
    let b = chars_of(base_content);
    let c = chars_of(comment);
    string_of(&line_with_comment_chars(&b, &c, min_width))
}

/// The pieces of a split line and the whitespace around them rebuild it:
/// without a `;` the code is the trimmed line; with one, the line is
/// whitespace, the code, whitespace, the comment from the first `;` on,
/// whitespace. The code holds no `;`; neither piece begins or ends with
/// whitespace, and the comment begins with `;`.
pub proof fn law_split_rebuilds(t: Seq<char>)
    ensures
        !contains_char(split_comment(t).0, ';'),
        split_comment(t).0.len() > 0 ==> !is_ws(split_comment(t).0[0]) && !is_ws(
            split_comment(t).0.last(),
        ),
        match split_comment(t).1 {
            None => !contains_char(t, ';') && split_comment(t).0 == trim(t),
            Some(c) => {
                &&& c.len() > 0 && c[0] == ';' && !is_ws(c.last())
                &&& exists|w1: Seq<char>, w2: Seq<char>, w3: Seq<char>|
                    all_ws(w1) && all_ws(w2) && all_ws(w3) && t == w1 + split_comment(t).0 + w2
                        + c + w3
            },
        },
{
    lemma_find_char(t, ';');
    match find_char(t, ';') {
        Some(k) => {
            let a = t.take(k as int);
            let b = t.skip(k as int);
            let code = trim(a);
            let c = trim(b);
            lemma_trim(a);
            lemma_trim(b);
            lemma_trim_parts(a);
            lemma_trim_parts(b);
            let w1 = a.take(a.len() - trim_start(a).len());
            let w2 = a.skip(a.len() - trim_start(a).len() + code.len());
            let v1 = b.take(b.len() - trim_start(b).len());
            let w3 = b.skip(b.len() - trim_start(b).len() + c.len());
            assert(b[0] == ';');
            assert(v1.len() == 0) by {
                if v1.len() > 0 {
                    assert(v1[0] == b[0]);
                }
            }
            assert(!all_ws(b)) by {
                assert(!is_ws(b[0]));
            }
            assert(c[0] == ';') by {
                assert(b == v1 + c + w3);
                assert(b[0] == c[0]);
            }
            assert(!contains_char(code, ';')) by {
                if contains_char(code, ';') {
                    let j = choose|j: int| 0 <= j < code.len() && code[j] == ';';
                    assert(a[w1.len() + j] == code[j]);
                }
            }
            assert(t =~= a + b);
            assert(b =~= v1 + c + w3);
            assert(t =~= w1 + code + w2 + c + w3);
        },
        None => {
            lemma_trim(t);
            lemma_trim_parts(t);
            let w1 = t.take(t.len() - trim_start(t).len());
            assert(!contains_char(trim(t), ';')) by {
                if contains_char(trim(t), ';') {
                    let j = choose|j: int| 0 <= j < trim(t).len() && trim(t)[j] == ';';
                    assert(t[w1.len() + j] == trim(t)[j]);
                }
            }
        },
    }
}

} // verus!
