//! Arrays: runs of `RST` values, written one value per line and aligned
//! under the first `RST`.

use vstd::prelude::*;
use crate::text::{
    byte_len, chars_of, contains_char, contains_char_in, contains_str, contains_str_in,
    extend_chars, find_char, find_char_in, find_str, find_str_in, spaces, spaces_exec,
    split_char, split_char_exec, starts_with, starts_with_exec, str_views, string_of,
    string_views, sub_chars, trim, trim_bounds, trim_chars, views, lemma_split_char_nonempty,
};
use crate::formatter::{rst, rst_chars, rst_sp, rst_sp_chars};
use crate::formatter::comments::{
    line_with_comment, line_with_comment_chars, split_comment, split_comment_chars, COMMENT_COLUMN,
};
use crate::formatter::labels::{label_with_data, label_with_data_chars};

verus! {

/// Whether the data line at `i` starts an array: it holds `RST` and a
/// comma, or the next line starts with `RST `.
pub open spec fn array_starts(lines: Seq<Seq<char>>, i: int) -> bool {
    let cur = trim(lines[i]);
    ||| contains_str(cur, rst()) && contains_char(cur, ',')
    ||| i + 1 < lines.len() && starts_with(trim(lines[i + 1]), rst_sp())
}

/// A continuation line of an array: `RST value` under the first `RST` of
/// the label's line (the label's length counted in bytes).
pub open spec fn continuation(label: Seq<char>, value: Seq<char>) -> Seq<char> {
    spaces(byte_len(label) + 2) + rst_sp() + value
}

/// The values of `RST a, b, c`: what follows the first `RST`, split at commas
/// and trimmed.
pub open spec fn rst_values(code: Seq<char>, p: nat) -> Seq<Seq<char>> {
    split_char(trim(code.skip(p + 3int)), ',').map_values(|v: Seq<char>| trim(v))
}

/// The lines of a one-line array `label: RST a, b, c ; comment`.
pub open spec fn comma_lines(label: Seq<char>, data_part: Seq<char>) -> Seq<Seq<char>> {
    let (code, comment) = split_comment(data_part);
    match find_str(code, rst()) {
        Some(p) => {
            let vals = rst_values(code, p);
            let head = label + seq![':', ' '] + rst_sp() + vals[0];
            let first = match comment {
                Some(c) => line_with_comment(head, c, COMMENT_COLUMN as nat),
                None => head,
            };
            seq![first] + vals.skip(1).map_values(|v: Seq<char>| continuation(label, v))
        },
        None => seq![],
    }
}

/// Whether `t` continues an array: trimmed, it starts with `RST `.
pub open spec fn is_rst_line(t: Seq<char>) -> bool {
    starts_with(trim(t), rst_sp())
}

/// How many lines from `j` on continue an array.
pub open spec fn rst_run(lines: Seq<Seq<char>>, j: nat) -> nat
    decreases lines.len() - j,
{
    if j < lines.len() && is_rst_line(lines[j as int]) {
        1 + rst_run(lines, j + 1)
    } else {
        0
    }
}

/// A run of array lines never reaches past the last line.
pub proof fn lemma_rst_run_bound(lines: Seq<Seq<char>>, j: nat)
    ensures
        j <= lines.len() ==> j + rst_run(lines, j) <= lines.len(),
    decreases lines.len() - j,
{
    if j < lines.len() && is_rst_line(lines[j as int]) {
        lemma_rst_run_bound(lines, j + 1);
    }
}

/// The value on an array continuation line.
pub open spec fn rst_line_value(t: Seq<char>) -> Seq<char> {
    trim(trim(t).skip(4))
}

/// The lines of a multi-line array whose first line (at `idx`) is `first`.
pub open spec fn multiline_lines(lines: Seq<Seq<char>>, idx: nat, label: Seq<char>, first: Seq<char>) -> Seq<Seq<char>> {
    seq![label_with_data(first)] + Seq::new(
        rst_run(lines, idx + 1),
        |k: int| continuation(label, rst_line_value(lines[idx + 1 + k])),
    )
}

/// The lines that the array starting at line `i` is formatted to.
pub open spec fn array_block(lines: Seq<Seq<char>>, i: nat) -> Seq<Seq<char>> {
    let first = trim(lines[i as int]);
    match find_char(first, ':') {
        Some(k) => {
            let label = trim(first.take(k as int));
            let data_part = trim(first.skip(k + 1int));
            if contains_char(data_part, ',') {
                comma_lines(label, data_part)
            } else {
                multiline_lines(lines, i, label, first)
            }
        },
        None => seq![],
    }
}

/// The index of the first line after the array starting at line `i`.
pub open spec fn array_next(lines: Seq<Seq<char>>, i: nat) -> nat {
    let first = trim(lines[i as int]);
    match find_char(first, ':') {
        Some(k) => {
            let data_part = trim(first.skip(k + 1int));
            if contains_char(data_part, ',') {
                i + 1
            } else {
                i + 1 + rst_run(lines, i + 1)
            }
        },
        None => i + 1,
    }
}

/// Whether the line at `start_idx` begins an array.
pub fn is_array_start(lines: &[&str], start_idx: usize) -> (r: bool)
    requires
        start_idx < lines@.len(),
    ensures
        r == array_starts(str_views(lines@), start_idx as int),
{
    let cur = trim_chars(&chars_of(lines[start_idx]));
    if contains_str_in(&cur, &rst_chars()) && contains_char_in(&cur, ',') {
        return true;
    }
    if start_idx + 1 < lines.len() {
        let next = trim_chars(&chars_of(lines[start_idx + 1]));
        if starts_with_exec(&next, &rst_sp_chars()) {
            return true;
        }
    }
    false
}

/// `continuation` on characters, with `sp` the label's indentation.
fn continuation_chars(sp: &Vec<char>, value: &Vec<char>) -> (r: Vec<char>)
    ensures
        r@ == sp@ + rst_sp() + value@,
{
    let mut r = sub_chars(sp, 0, sp.len());
    assert(sp@.subrange(0, sp.len() as int) =~= sp@);
    extend_chars(&mut r, &rst_sp_chars());
    extend_chars(&mut r, value);
    r
}

/// The indentation of continuation lines under a label: its length in
/// bytes plus two.
fn label_indent(label: &str) -> (r: Vec<char>)
    ensures
        r@ == spaces(byte_len(label@) + 2),
{
    let n = label.as_bytes().len();
    let mut r = spaces_exec(n);
    r.push(' ');
    r.push(' ');
    assert(r@ =~= spaces(byte_len(label@) + 2));
    r
}

/// Writes the one-line array `label: RST a, b, c` as one value per line.
pub fn format_comma_separated_array(result: &mut Vec<String>, label: &str, data_part: &str)
    ensures
        string_views(final(result)@) == string_views(old(result)@) + comma_lines(
            label@,
            data_part@,
        ),
{
    let ghost start = string_views(result@);
    let dp = chars_of(data_part);
    let (code, comment) = split_comment_chars(&dp);
    match find_str_in(&code, &rst_chars()) {
        Some(p) => {
            let (a, b) = trim_bounds(&code, p + 3, code.len());
            assert(code@.subrange(p + 3, code.len() as int) =~= code@.skip(p + 3));
            let after = sub_chars(&code, a, b);
            let pieces = split_char_exec(&after, ',');
            proof {
                lemma_split_char_nonempty(after@, ',');
            }
            let ghost vals = rst_values(code@, p as nat);
            let lab = chars_of(label);
            let mut head = sub_chars(&lab, 0, lab.len());
            head.push(':');
            head.push(' ');
            extend_chars(&mut head, &rst_sp_chars());
            let v0 = trim_chars(&pieces[0]);
            extend_chars(&mut head, &v0);
            assert(head@ =~= label@ + seq![':', ' '] + rst_sp() + vals[0]);
            let first = match comment {
                Some(c) => line_with_comment_chars(&head, &c, COMMENT_COLUMN),
                None => head,
            };
            result.push(string_of(&first));
            let sp = label_indent(label);
            let mut i: usize = 1;
            while i < pieces.len()
                invariant
                    1 <= i <= pieces.len(),
                    vals.len() == pieces.len(),
                    forall|j: int| 0 <= j < vals.len() ==> vals[j] == trim(#[trigger] pieces@[j]@),
                    sp@ == spaces(byte_len(label@) + 2),
                    string_views(result@) == start + seq![first@] + vals.skip(1).take(i - 1).map_values(
                        |v: Seq<char>| continuation(label@, v),
                    ),
                decreases pieces.len() - i,
            {
                let v = trim_chars(&pieces[i]);
                let line = continuation_chars(&sp, &v);
                let ghost before = string_views(result@);
                result.push(string_of(&line));
                i += 1;
                assert(string_views(result@) =~= before.push(line@));
                assert(vals.skip(1).take(i - 1) =~= vals.skip(1).take(i - 2).push(vals[i - 1]));
                assert(string_views(result@) =~= start + seq![first@] + vals.skip(1).take(
                    i - 1,
                ).map_values(|v: Seq<char>| continuation(label@, v)));
            }
            assert(vals.skip(1).take(i - 1) =~= vals.skip(1));
        },
        None => {
            assert(string_views(result@) =~= start + comma_lines(label@, data_part@));
        },
    }
}

/// Writes a multi-line array: the first line `first_line` as a data label,
/// then each following `RST value` line aligned under the first `RST`.
/// `current_idx` moves to the last line of the array.
pub fn format_multiline_array(
    result: &mut Vec<String>,
    lines: &[&str],
    current_idx: &mut usize,
    label: &str,
    first_line: &str,
)
    requires
        *old(current_idx) < usize::MAX,
    ensures
        *final(current_idx) == *old(current_idx) + rst_run(
            str_views(lines@),
            (*old(current_idx) + 1) as nat,
        ),
        string_views(final(result)@) == string_views(old(result)@) + multiline_lines(
            str_views(lines@),
            *old(current_idx) as nat,
            label@,
            first_line@,
        ),
{
    let ghost ls = str_views(lines@);
    let ghost start = string_views(result@);
    let ghost idx0 = *current_idx;
    let first = label_with_data_chars(&chars_of(first_line));
    result.push(string_of(&first));
    let sp = label_indent(label);
    *current_idx = *current_idx + 1;
    let ghost lw = |k: int| continuation(label@, rst_line_value(ls[idx0 + 1 + k]));
    while *current_idx < lines.len()
        invariant
            *current_idx <= lines@.len() || *current_idx == idx0 + 1,
            ls == str_views(lines@),
            idx0 < usize::MAX,
            idx0 + 1 <= *current_idx,
            sp@ == spaces(byte_len(label@) + 2),
            lw == (|k: int| continuation(label@, rst_line_value(ls[idx0 + 1 + k]))),
            rst_run(ls, (idx0 + 1) as nat) == (*current_idx - idx0 - 1) + rst_run(
                ls,
                *current_idx as nat,
            ),
            string_views(result@) == start + seq![label_with_data(first_line@)] + Seq::new(
                (*current_idx - idx0 - 1) as nat,
                lw,
            ),
        ensures
            rst_run(ls, *current_idx as nat) == 0,
            idx0 + 1 <= *current_idx,
        decreases lines@.len() - *current_idx,
    {
        let i = *current_idx;
        let t = trim_chars(&chars_of(lines[i]));
        if starts_with_exec(&t, &rst_sp_chars()) {
            let (a, b) = trim_bounds(&t, 4, t.len());
            assert(t@.subrange(4, t.len() as int) =~= t@.skip(4));
            let value = sub_chars(&t, a, b);
            let line = continuation_chars(&sp, &value);
            let ghost before = string_views(result@);
            result.push(string_of(&line));
            *current_idx = i + 1;
            assert(string_views(result@) =~= before.push(line@));
            assert(Seq::new((*current_idx - idx0 - 1) as nat, lw) =~= Seq::new(
                (i - idx0 - 1) as nat,
                lw,
            ).push(lw(i - idx0 - 1)));
        } else {
            break;
        }
    }
    *current_idx = *current_idx - 1;
    assert(string_views(result@) =~= start + multiline_lines(ls, idx0 as nat, label@, first_line@));
}

/// Formats the array that starts at line `*current_idx` and moves
/// `current_idx` to the line after it.
pub fn format_array_block(lines: &[&str], current_idx: &mut usize) -> (r: Vec<String>)
    requires
        *old(current_idx) < lines@.len(),
    ensures
        string_views(r@) == array_block(str_views(lines@), *old(current_idx) as nat),
        *final(current_idx) == array_next(str_views(lines@), *old(current_idx) as nat),
{
    let ghost ls = str_views(lines@);
    let ghost idx0 = *current_idx;
    let mut result: Vec<String> = Vec::new();
    let text = lines[*current_idx];
    let v = chars_of(text);
    let (fa, fb) = trim_bounds(&v, 0, v.len());
    assert(v@.subrange(0, v.len() as int) =~= v@);
    let first_line = text.substring_char(fa, fb);
    let first = sub_chars(&v, fa, fb);
    match find_char_in(&first, ':') {
        Some(k) => {
            let (la, lb) = trim_bounds(&first, 0, k);
            assert(first@.subrange(0, k as int) =~= first@.take(k as int));
            let label = first_line.substring_char(la, lb);
            let (da, db) = trim_bounds(&first, k + 1, first.len());
            assert(first@.subrange(k + 1, first.len() as int) =~= first@.skip(k + 1));
            let data_part = first_line.substring_char(da, db);
            let dp = sub_chars(&first, da, db);
            if contains_char_in(&dp, ',') {
                format_comma_separated_array(&mut result, label, data_part);
            } else {
                proof {
                    lemma_rst_run_bound(ls, (idx0 + 1) as nat);
                }
                format_multiline_array(&mut result, lines, current_idx, label, first_line);
            }
        },
        None => {},
    }
    *current_idx = *current_idx + 1;
    assert(string_views(result@) =~= array_block(ls, idx0 as nat));
    result
}


/// A continuation line starts at the aligned column with `RST `.
proof fn lemma_continuation_starts(label: Seq<char>, v: Seq<char>)
    ensures
        starts_with(continuation(label, v), spaces(byte_len(label) + 2) + rst_sp()),
{
    let p = spaces(byte_len(label) + 2) + rst_sp();
    assert(continuation(label, v).subrange(0, p.len() as int) =~= p);
}

/// The layout of an array block starting at line `i`: the block ends after
/// its first line, and for a multi-line array after the lines that continue
/// it; every line after the first starts, under the first `RST`, with as
/// many spaces as the label has bytes plus two and then `RST `; a
/// multi-line array gives one line per line it spans.
pub proof fn law_array_layout(ls: Seq<Seq<char>>, i: nat)
    requires
        i < ls.len(),
    ensures
        i < array_next(ls, i) <= ls.len(),
        match find_char(trim(ls[i as int]), ':') {
            Some(k) => {
                let first = trim(ls[i as int]);
                let label = trim(first.take(k as int));
                let b = array_block(ls, i);
                &&& forall|j: int|
                    1 <= j < b.len() ==> starts_with(
                        #[trigger] b[j],
                        spaces(byte_len(label) + 2) + rst_sp(),
                    )
                &&& !contains_char(trim(first.skip(k + 1int)), ',') ==> b.len() == 1 + rst_run(
                    ls,
                    i + 1,
                ) && array_next(ls, i) == i + 1 + rst_run(ls, i + 1)
            },
            None => array_block(ls, i).len() == 0 && array_next(ls, i) == i + 1,
        },
{
    lemma_rst_run_bound(ls, i + 1);
    match find_char(trim(ls[i as int]), ':') {
        Some(k) => {
            let first = trim(ls[i as int]);
            let label = trim(first.take(k as int));
            let b = array_block(ls, i);
            assert forall|j: int| 1 <= j < b.len() implies starts_with(
                #[trigger] b[j],
                spaces(byte_len(label) + 2) + rst_sp(),
            ) by {
                let data_part = trim(first.skip(k + 1int));
                if contains_char(data_part, ',') {
                    let (code, comment) = split_comment(data_part);
                    match find_str(code, rst()) {
                        Some(p) => {
                            let vals = rst_values(code, p);
                            assert(b[j] == continuation(label, vals.skip(1)[j - 1]));
                            lemma_continuation_starts(label, vals.skip(1)[j - 1]);
                        },
                        None => {},
                    }
                } else {
                    assert(b[j] == continuation(label, rst_line_value(ls[i + 1 + (j - 1)])));
                    lemma_continuation_starts(label, rst_line_value(ls[i + 1 + (j - 1)]));
                }
            }
        },
        None => {},
    }
}


/// Whether a line starts an array does not depend on the whitespace around
/// it: it holds `RST` and a comma, or the next line, trimmed, starts with
/// `RST `.
pub proof fn law_array_start_untrimmed(ls: Seq<Seq<char>>, i: int)
    requires
        0 <= i < ls.len(),
    ensures
        array_starts(ls, i) == ((contains_str(ls[i], rst()) && contains_char(ls[i], ','))
            || (i + 1 < ls.len() && starts_with(trim(ls[i + 1]), rst_sp()))),
{
    assert(crate::text::no_ws(rst()));
    crate::text::lemma_contains_trim(ls[i], rst());
    crate::text::lemma_contains_char_trim(ls[i], ',');
}

} // verus!
