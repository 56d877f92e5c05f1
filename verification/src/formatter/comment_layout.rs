//! Where comments stand in a formatted document: at the margin before the
//! first line of code, indented like code after it.

use vstd::prelude::*;
use crate::text::{
    all_lack, all_ws, contains_char, contains_str, find_char, is_ws, join, lacks, lemma_find_char, lemma_trim,
    lemma_trim_parts, lemma_words_empty, lemma_words_parts, lines, pad_right,
    starts_with, trim, trim_start, words,
};
use crate::formatter::{indent, rst_sp};
use crate::formatter::comments::{line_with_comment, split_comment};
use crate::formatter::instructions::{formatted_statement, normalize_spacing};
use crate::formatter::labels::{instruction_after_colon, label_with_data};
use crate::formatter::arrays::{array_block, continuation, rst_values};
use crate::formatter::document::{
    format_from, formatted_code_line, formatted_document, lemma_trailing_empty_bound,
    push_blank, remove_spaces, starts_array_here, trailing_empty,
};
use crate::formatter::arrays::{array_next, law_array_layout};
use crate::formatter::line_endings::lemma_document_lines_lack;

verus! {

/// Whether every `;` of line `l` that only spaces precede is preceded by
/// exactly four of them, the indentation of code: no comment stands
/// indented by any other amount.
pub open spec fn comment_indent_ok(l: Seq<char>) -> bool {
    forall|n: int|
        0 < n < l.len() && #[trigger] l[n] == ';' && (forall|i: int| 0 <= i < n ==> l[i] == ' ')
            ==> n == 4
}

/// Whether `l` is a comment at the margin: it starts with `;`.
pub open spec fn margin_comment(l: Seq<char>) -> bool {
    l.len() > 0 && l[0] == ';'
}

/// Whether every comment at the margin of `ls` comes before every line
/// that is neither empty nor such a comment.
pub open spec fn margin_comments_first(ls: Seq<Seq<char>>) -> bool {
    forall|q: int, p: int|
        0 <= q < p < ls.len() && margin_comment(#[trigger] ls[p]) ==> (#[trigger] ls[q]).len() == 0
            || ls[q][0] == ';'
}

/// A line whose first character other than a space is at `m`, and is no
/// `;` unless `m` is the margin or the indentation of code, has its
/// comments where they belong.
proof fn lemma_first_nonspace(l: Seq<char>, m: int)
    requires
        0 <= m <= l.len(),
        forall|i: int| 0 <= i < m ==> l[i] == ' ',
        m < l.len() ==> l[m] != ' ' && (l[m] != ';' || m == 4 || m == 0),
    ensures
        comment_indent_ok(l),
{
    assert forall|n: int|
        0 < n < l.len() && #[trigger] l[n] == ';' && (forall|i: int| 0 <= i < n ==> l[i] == ' ')
        implies n == 4 by {
        if n < m {
            assert(l[n] == ' ');
        } else if n > m {
            assert(l[m] == ' ');
        }
    }
}

/// The piece of `t` before index `k`, trimmed, is empty or begins with the
/// first character of `t`, when that is not whitespace.
proof fn lemma_prefix_trim_start(t: Seq<char>, k: int)
    requires
        t.len() > 0,
        !is_ws(t[0]),
        0 <= k <= t.len(),
    ensures
        trim(t.take(k)).len() == 0 || trim(t.take(k))[0] == t[0],
        k > 0 ==> trim(t.take(k)).len() > 0,
{
    let s = t.take(k);
    if k > 0 {
        assert(s[0] == t[0]);
        assert(trim_start(s) == s);
        lemma_trim_parts(s);
        assert(s.take(0) =~= Seq::<char>::empty());
        let e = trim(s);
        assert(s =~= e + s.skip(e.len() as int));
        if e.len() > 0 {
            assert(s[0] == e[0]);
        } else {
            lemma_trim(s);
            assert(!all_ws(s));
        }
    } else {
        assert(s =~= Seq::<char>::empty());
        assert(trim_start(s) == s);
    }
}

/// Padding and a comment keep the first character.
proof fn lemma_with_comment_start(base: Seq<char>, c: Seq<char>, w: nat)
    requires
        base.len() > 0,
    ensures
        line_with_comment(base, c, w).len() > 0,
        line_with_comment(base, c, w)[0] == base[0],
{
    let p = pad_right(base, w);
    assert(p[0] == base[0]);
}

/// A formatted instruction or directive begins with a character other
/// than whitespace.
proof fn lemma_statement_start(a: Seq<char>)
    requires
        a.len() > 0,
        !is_ws(a[0]),
        a[0] != ';',
    ensures
        formatted_statement(a).len() > 0,
        !is_ws(formatted_statement(a)[0]),
{
    lemma_find_char(a, ';');
    let (code, comment) = split_comment(a);
    match find_char(a, ';') {
        Some(k) => {
            assert(k > 0);
            lemma_prefix_trim_start(a, k as int);
        },
        None => {
            lemma_prefix_trim_start(a, a.len() as int);
            assert(a.take(a.len() as int) =~= a);
        },
    }
    assert(code.len() > 0 && code[0] == a[0]);
    let f = normalize_spacing(code);
    if contains_char(code, ' ') {
        lemma_words_empty(code);
        assert(!all_ws(code));
        lemma_words_parts(code);
        let ws = words(code);
        assert(ws[0].len() > 0);
        assert(f[0] == ws[0][0]);
    }
    assert(f.len() > 0 && !is_ws(f[0]));
    match comment {
        Some(c) => lemma_with_comment_start(f, c, crate::formatter::comments::COMMENT_COLUMN as nat),
        None => {},
    }
}

/// Whether `l` can stand after code: it is not empty, it is no comment at
/// the margin, and its comments are indented as code is.
pub open spec fn code_line_ok(l: Seq<char>) -> bool {
    l.len() > 0 && l[0] != ';' && comment_indent_ok(l)
}

/// A line that begins at the margin with neither a space nor `;`.
proof fn lemma_margin_line(l: Seq<char>)
    requires
        l.len() > 0,
        l[0] != ' ',
        l[0] != ';',
    ensures
        code_line_ok(l),
{
    lemma_first_nonspace(l, 0);
}

/// An indented instruction or directive.
proof fn lemma_indented_statement(a: Seq<char>)
    requires
        a.len() > 0,
        !is_ws(a[0]),
        a[0] != ';',
    ensures
        code_line_ok(indent() + formatted_statement(a)),
{
    lemma_statement_start(a);
    let l = indent() + formatted_statement(a);
    assert(l[4] == formatted_statement(a)[0]);
    assert(is_ws(' '));
    lemma_first_nonspace(l, 4);
}

/// Removing spaces keeps a first character that is no space.
proof fn lemma_remove_spaces_start(s: Seq<char>)
    requires
        s.len() > 0,
        s[0] != ' ',
    ensures
        remove_spaces(s).len() > 0,
        remove_spaces(s)[0] == s[0],
    decreases s.len(),
{
    if s.len() == 1 {
        let d = s.drop_last();
        assert(d =~= Seq::<char>::empty());
        assert(remove_spaces(d) == d);
        assert(s.last() == s[0]);
        assert(remove_spaces(s) == remove_spaces(d).push(s.last()));
        assert(remove_spaces(s) =~= seq![s[0]]);
    } else {
        let d = s.drop_last();
        assert(d[0] == s[0]);
        lemma_remove_spaces_start(d);
        let r = remove_spaces(d);
        if s.last() != ' ' {
            assert(remove_spaces(s) == r.push(s.last()));
            assert(r.push(s.last())[0] == r[0]);
        } else {
            assert(remove_spaces(s) == r);
        }
    }
}

/// A label followed by what begins with `:` starts at the margin with
/// neither a space nor `;`.
proof fn lemma_label_then(t: Seq<char>, k: int, x: Seq<char>)
    requires
        t.len() > 0,
        !is_ws(t[0]),
        t[0] != ';',
        0 <= k <= t.len(),
        x.len() > 0,
        x[0] == ':',
    ensures
        code_line_ok(trim(t.take(k)) + x),
        (trim(t.take(k)) + x)[0] != ' ',
{
    lemma_prefix_trim_start(t, k);
    let l = trim(t.take(k)) + x;
    assert(is_ws(' '));
    assert(l[0] == t[0] || l[0] == ':');
    lemma_margin_line(l);
}

/// A label with its data on one line.
proof fn lemma_label_with_data_ok(t: Seq<char>)
    requires
        t.len() > 0,
        !is_ws(t[0]),
        t[0] != ';',
        contains_char(t, ':'),
    ensures
        code_line_ok(label_with_data(t)),
{
    lemma_find_char(t, ':');
    let k = find_char(t, ':')->0;
    let label = trim(t.take(k as int));
    let (data, comment) = split_comment(trim(t.skip(k + 1int)));
    let rest = seq![':', ' '] + normalize_spacing(data);
    let base = label + seq![':', ' '] + normalize_spacing(data);
    assert(base =~= label + rest);
    lemma_label_then(t, k as int, rest);
    match comment {
        Some(c) => {
            lemma_with_comment_start(base, c, crate::formatter::comments::COMMENT_COLUMN as nat);
            assert(label_with_data(t) == line_with_comment(
                base,
                c,
                crate::formatter::comments::COMMENT_COLUMN as nat,
            ));
            assert(base[0] == (label + rest)[0]);
            lemma_margin_line(label_with_data(t));
        },
        None => {},
    }
}

/// A continuation line of an array.
proof fn lemma_continuation_ok(label: Seq<char>, v: Seq<char>)
    ensures
        code_line_ok(continuation(label, v)),
{
    let n = crate::text::byte_len(label) + 2;
    let l = continuation(label, v);
    assert(l[n as int] == 'R');
    assert(l[0] == ' ');
    lemma_first_nonspace(l, n as int);
}

/// Every line that a line of code (not an array) is formatted to can stand
/// after code.
proof fn lemma_code_line_ok(t: Seq<char>)
    requires
        t.len() > 0,
        !is_ws(t[0]),
        t[0] != ';',
    ensures
        forall|j: int| 0 <= j < formatted_code_line(t).len() ==> code_line_ok(
            #[trigger] formatted_code_line(t)[j],
        ),
{
    let f = formatted_code_line(t);
    assert(is_ws(' '));
    if contains_char(t, ':') && instruction_after_colon(t) {
        lemma_find_char(t, ':');
        let k = find_char(t, ':')->0;
        let a = trim(t.skip(k + 1int));
        lemma_trim(t.skip(k + 1int));
        lemma_label_then(t, k as int, seq![':']);
        assert(trim(t.take(k as int)).push(':') =~= trim(t.take(k as int)) + seq![':']);
        if a.len() > 0 {
            assert(a[0] != ';') by {
                if a[0] == ';' {
                    assert(a.subrange(0, 1) =~= seq![';']);
                    assert(starts_with(a, seq![';']));
                }
            }
            lemma_indented_statement(a);
        }
    } else if contains_char(t, ':') && (contains_str(t, crate::formatter::rst()) || contains_str(t, crate::formatter::rpa())) {
        lemma_label_with_data_ok(t);
    } else if t.last() == ':' {
        lemma_remove_spaces_start(t);
        lemma_margin_line(remove_spaces(t));
    } else {
        lemma_indented_statement(t);
    }
}

/// Every line of an array block can stand after code.
proof fn lemma_array_block_ok(ls: Seq<Seq<char>>, i: nat)
    requires
        i < ls.len(),
        trim(ls[i as int]).len() > 0,
        trim(ls[i as int])[0] != ';',
    ensures
        forall|j: int| 0 <= j < array_block(ls, i).len() ==> code_line_ok(
            #[trigger] array_block(ls, i)[j],
        ),
{
    let first = trim(ls[i as int]);
    lemma_trim(ls[i as int]);
    let b = array_block(ls, i);
    lemma_find_char(first, ':');
    match find_char(first, ':') {
        Some(k) => {
            let label = trim(first.take(k as int));
            let data_part = trim(first.skip(k + 1int));
            assert forall|j: int| 0 <= j < b.len() implies code_line_ok(#[trigger] b[j]) by {
                if contains_char(data_part, ',') {
                    let (code, comment) = split_comment(data_part);
                    match crate::text::find_str(code, crate::formatter::rst()) {
                        Some(p) => {
                            let vals = rst_values(code, p);
                            if j == 0 {
                                let rest = seq![':', ' '] + rst_sp() + vals[0];
                                let head = label + seq![':', ' '] + rst_sp() + vals[0];
                                assert(head =~= label + rest);
                                lemma_label_then(first, k as int, rest);
                                match comment {
                                    Some(c) => {
                                        lemma_with_comment_start(
                                            head,
                                            c,
                                            crate::formatter::comments::COMMENT_COLUMN as nat,
                                        );
                                        assert(b[0] == line_with_comment(
                                            head,
                                            c,
                                            crate::formatter::comments::COMMENT_COLUMN as nat,
                                        ));
                                        assert(head[0] == (label + rest)[0]);
                                        lemma_margin_line(b[j]);
                                    },
                                    None => {
                                        assert(b[0] == head);
                                    },
                                }
                            } else {
                                assert(b[j] == continuation(label, vals.skip(1)[j - 1]));
                                lemma_continuation_ok(label, vals.skip(1)[j - 1]);
                            }
                        },
                        None => {},
                    }
                } else {
                    if j == 0 {
                        assert(contains_char(first, ':'));
                        lemma_label_with_data_ok(first);
                    } else {
                        let v = crate::formatter::arrays::rst_line_value(ls[i + 1 + (j - 1)]);
                        assert(b[j] == continuation(label, v));
                        lemma_continuation_ok(label, v);
                    }
                }
            }
        },
        None => {},
    }
}

/// What holds of the formatted lines gathered so far: comments at the
/// margin come first, comments are indented by four spaces or not at all,
/// and before the first line of code only empty lines and comments at the
/// margin stand.
pub open spec fn layout_so_far(out: Seq<Seq<char>>, found: bool) -> bool {
    &&& margin_comments_first(out)
    &&& forall|k: int| 0 <= k < out.len() ==> comment_indent_ok(#[trigger] out[k])
    &&& !found ==> forall|k: int| 0 <= k < out.len() ==> (#[trigger] out[k]).len() == 0 || out[k][0]
        == ';'
}

/// Lines of code keep the layout, and code has then been seen.
proof fn lemma_append_code(out: Seq<Seq<char>>, extra: Seq<Seq<char>>, found: bool)
    requires
        layout_so_far(out, found),
        forall|j: int| 0 <= j < extra.len() ==> code_line_ok(#[trigger] extra[j]),
    ensures
        layout_so_far(out + extra, true),
{
    let n = out + extra;
    assert forall|q: int, p: int|
        0 <= q < p < n.len() && margin_comment(#[trigger] n[p]) implies (#[trigger] n[q]).len() == 0
        || n[q][0] == ';' by {
        if p >= out.len() {
            assert(n[p] == extra[p - out.len()]);
            assert(code_line_ok(extra[p - out.len()]));
        } else {
            assert(n[p] == out[p] && n[q] == out[q]);
        }
    }
    assert forall|k: int| 0 <= k < n.len() implies comment_indent_ok(#[trigger] n[k]) by {
        if k >= out.len() {
            assert(n[k] == extra[k - out.len()]);
            assert(code_line_ok(extra[k - out.len()]));
        } else {
            assert(n[k] == out[k]);
        }
    }
}

/// Adding one line keeps the layout when the line is an empty line, a
/// comment at the margin before any code, or an indented comment.
proof fn lemma_push_line(out: Seq<Seq<char>>, found: bool, l: Seq<char>)
    requires
        layout_so_far(out, found),
        comment_indent_ok(l),
        margin_comment(l) ==> !found,
        !found ==> l.len() == 0 || l[0] == ';',
    ensures
        layout_so_far(out.push(l), found),
{
    let n = out.push(l);
    assert forall|q: int, p: int|
        0 <= q < p < n.len() && margin_comment(#[trigger] n[p]) implies (#[trigger] n[q]).len() == 0
        || n[q][0] == ';' by {
        assert(n[q] == out[q]);
        if p < out.len() {
            assert(n[p] == out[p]);
        }
    }
    assert forall|k: int| 0 <= k < n.len() implies comment_indent_ok(#[trigger] n[k]) by {
        if k < out.len() {
            assert(n[k] == out[k]);
        }
    }
    assert(!found ==> forall|k: int| 0 <= k < n.len() ==> (#[trigger] n[k]).len() == 0 || n[k][0]
        == ';') by {
        if !found {
            assert forall|k: int| 0 <= k < n.len() implies (#[trigger] n[k]).len() == 0 || n[k][0]
                == ';' by {
                if k < out.len() {
                    assert(n[k] == out[k]);
                }
            }
        }
    }
}

/// Formatting the lines from `i` on keeps the layout.
proof fn lemma_format_from_layout(ls: Seq<Seq<char>>, i: nat, found: bool, out: Seq<Seq<char>>)
    requires
        layout_so_far(out, found),
    ensures
        margin_comments_first(format_from(ls, i, found, out)),
        forall|k: int| 0 <= k < format_from(ls, i, found, out).len() ==> comment_indent_ok(
            #[trigger] format_from(ls, i, found, out)[k],
        ),
    decreases ls.len() - i,
{
    if i < ls.len() {
        let t = trim(ls[i as int]);
        lemma_trim(ls[i as int]);
        assert(is_ws(' '));
        if t.len() == 0 {
            if trailing_empty(out) < 2 {
                lemma_first_nonspace(seq![], 0);
                lemma_push_line(out, found, seq![]);
            }
            lemma_format_from_layout(ls, i + 1, found, push_blank(out));
        } else if t[0] == ';' {
            if found {
                let l = indent() + t;
                assert(l[4] == ';');
                lemma_first_nonspace(l, 4);
                lemma_push_line(out, found, l);
                lemma_format_from_layout(ls, i + 1, found, out.push(l));
            } else {
                lemma_first_nonspace(t, 0);
                lemma_push_line(out, found, t);
                lemma_format_from_layout(ls, i + 1, found, out.push(t));
            }
        } else if starts_array_here(ls, i, t) {
            law_array_layout(ls, i);
            lemma_array_block_ok(ls, i);
            lemma_append_code(out, array_block(ls, i), found);
            lemma_format_from_layout(ls, array_next(ls, i), true, out + array_block(ls, i));
        } else {
            lemma_code_line_ok(t);
            lemma_append_code(out, formatted_code_line(t), found);
            lemma_format_from_layout(ls, i + 1, true, out + formatted_code_line(t));
        }
    }
}

/// Where comments stand in a formatted document. The formatted text is a
/// sequence of lines, each ended by a line ending, and in it
/// - a comment at the margin (a line starting with `;`) comes only after
///   empty lines and other comments at the margin: once a line of code has
///   been written (a label alone included), every later comment is
///   indented, and
/// - a comment that is indented is indented by four spaces, like code.
pub proof fn law_comment_layout(content: Seq<char>)
    ensures
        exists|ms: Seq<Seq<char>>|
            #![trigger margin_comments_first(ms)]
            formatted_document(content) == join(ms.push(seq![]), seq!['\n']) && all_lack(ms, '\n')
                && margin_comments_first(ms) && forall|k: int|
                0 <= k < ms.len() ==> comment_indent_ok(#[trigger] ms[k]),
{
    let doc = formatted_document(content);
    if all_ws(content) {
        let ms: Seq<Seq<char>> = seq![seq![]];
        let w = ms.push(seq![]);
        assert(w.len() == 2);
        assert(w.drop_last() =~= ms);
        assert(join(w.drop_last(), seq!['\n']) == Seq::<char>::empty());
        assert(w.last() == Seq::<char>::empty());
        assert(join(w, seq!['\n']) == join(w.drop_last(), seq!['\n']) + seq!['\n'] + w.last());
        assert(join(w, seq!['\n']) =~= seq!['\n']);
        assert(doc == seq!['\n']);
        assert(lacks(ms[0], '\n'));
        lemma_first_nonspace(ms[0], 0);
        assert(margin_comments_first(ms));
        assert(all_lack(ms, '\n'));
        assert(forall|k: int| 0 <= k < ms.len() ==> comment_indent_ok(#[trigger] ms[k]));
    } else {
        let out = format_from(lines(content), 0, false, seq![]);
        lemma_format_from_layout(lines(content), 0, false, seq![]);
        lemma_document_lines_lack(content);
        lemma_trailing_empty_bound(out);
        let ms = out.take(out.len() - trailing_empty(out));
        assert forall|q: int, p: int|
            0 <= q < p < ms.len() && margin_comment(#[trigger] ms[p]) implies (#[trigger] ms[q]).len()
            == 0 || ms[q][0] == ';' by {
            assert(ms[p] == out[p] && ms[q] == out[q]);
        }
        assert forall|k: int| 0 <= k < ms.len() implies comment_indent_ok(#[trigger] ms[k]) by {
            assert(ms[k] == out[k]);
        }
        assert forall|k: int| 0 <= k < ms.len() implies lacks(#[trigger] ms[k], '\n') by {
            assert(ms[k] == out[k]);
        }
        if ms.len() == 0 {
            assert(doc == Seq::<char>::empty());
            assert(ms.push(seq![]) =~= seq![seq![]]);
            assert(join(ms.push(seq![]), seq!['\n']) == Seq::<char>::empty());
        }
        assert(doc == join(ms.push(seq![]), seq!['\n']));
        assert(margin_comments_first(ms));
        assert(all_lack(ms, '\n'));
    }
}

/// Whether `l` is empty or a comment once trimmed: a line that may stand
/// before the first line of code.
pub open spec fn header_line(l: Seq<char>) -> bool {
    trim(l).len() == 0 || trim(l)[0] == ';'
}

/// Formatting never takes back a line already written.
proof fn lemma_format_from_extends(ls: Seq<Seq<char>>, i: nat, found: bool, out: Seq<Seq<char>>)
    ensures
        out.len() <= format_from(ls, i, found, out).len(),
        forall|k: int| 0 <= k < out.len() ==> #[trigger] format_from(ls, i, found, out)[k] == out[k],
    decreases ls.len() - i,
{
    if i < ls.len() {
        let t = trim(ls[i as int]);
        if t.len() == 0 {
            let o = push_blank(out);
            lemma_format_from_extends(ls, i + 1, found, o);
            assert forall|k: int| 0 <= k < out.len() implies o[k] == out[k] by {}
        } else if t[0] == ';' {
            let o = out.push(if found { indent() + t } else { t });
            lemma_format_from_extends(ls, i + 1, found, o);
            assert forall|k: int| 0 <= k < out.len() implies o[k] == out[k] by {}
        } else if starts_array_here(ls, i, t) {
            law_array_layout(ls, i);
            let o = out + array_block(ls, i);
            lemma_format_from_extends(ls, array_next(ls, i), true, o);
            assert forall|k: int| 0 <= k < out.len() implies o[k] == out[k] by {}
        } else {
            let o = out + formatted_code_line(t);
            lemma_format_from_extends(ls, i + 1, true, o);
            assert forall|k: int| 0 <= k < out.len() implies o[k] == out[k] by {}
        }
    }
}

/// Over lines that are empty or comments, no code has been seen: formatting
/// from `i` is formatting from `j` with the lines written in between.
proof fn lemma_through_header(ls: Seq<Seq<char>>, i: nat, j: nat, out: Seq<Seq<char>>) -> (mid: Seq<Seq<char>>)
    requires
        i <= j <= ls.len(),
        forall|h: int| i <= h < j ==> header_line(#[trigger] ls[h]),
    ensures
        format_from(ls, i, false, out) == format_from(ls, j, false, mid),
    decreases j - i,
{
    if i == j {
        out
    } else {
        assert(header_line(ls[i as int]));
        let t = trim(ls[i as int]);
        if t.len() == 0 {
            lemma_through_header(ls, i + 1, j, push_blank(out))
        } else {
            lemma_through_header(ls, i + 1, j, out.push(t))
        }
    }
}

/// Comments before the first line of code stay at the margin: a comment
/// line of the input that only empty lines and other comments precede is
/// a line of the formatted text, trimmed and not indented.
pub proof fn law_header_comments_at_margin(content: Seq<char>, j: int)
    requires
        !all_ws(content),
        0 <= j < lines(content).len(),
        trim(lines(content)[j]).len() > 0,
        trim(lines(content)[j])[0] == ';',
        forall|h: int| 0 <= h < j ==> header_line(#[trigger] lines(content)[h]),
    ensures
        exists|ms: Seq<Seq<char>>, p: int|
            #![trigger ms[p]]
            formatted_document(content) == join(ms.push(seq![]), seq!['\n']) && all_lack(ms, '\n')
                && 0 <= p < ms.len() && ms[p] == trim(lines(content)[j]),
{
    let ls = lines(content);
    let t = trim(ls[j]);
    let mid = lemma_through_header(ls, 0, j as nat, seq![]);
    assert(format_from(ls, j as nat, false, mid) == format_from(ls, (j + 1) as nat, false, mid.push(t)));
    lemma_format_from_extends(ls, (j + 1) as nat, false, mid.push(t));
    let out = format_from(ls, 0, false, seq![]);
    let p = mid.len() as int;
    assert(out[p] == t);
    lemma_document_lines_lack(content);
    lemma_trailing_empty_bound(out);
    lemma_nonempty_kept(out, p);
    let ms = out.take(out.len() - trailing_empty(out));
    assert forall|k: int| 0 <= k < ms.len() implies lacks(#[trigger] ms[k], '\n') by {
        assert(ms[k] == out[k]);
    }
    assert(ms[p] == t);
    if ms.len() == 0 {
        assert(ms.push(seq![]) =~= seq![seq![]]);
    }
    assert(formatted_document(content) == join(ms.push(seq![]), seq!['\n']));
    assert(all_lack(ms, '\n'));
}

/// A line that is not empty is not among the trailing empty lines.
proof fn lemma_nonempty_kept(out: Seq<Seq<char>>, p: int)
    requires
        0 <= p < out.len(),
        out[p].len() > 0,
    ensures
        p < out.len() - trailing_empty(out),
    decreases out.len(),
{
    if out.len() > 0 && out.last().len() == 0 {
        assert(p < out.len() - 1);
        assert(out.drop_last()[p] == out[p]);
        lemma_nonempty_kept(out.drop_last(), p);
    }
}

} // verus!
