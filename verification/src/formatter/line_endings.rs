//! Formatted lines hold no line ending, so the formatted text keeps the
//! shape of its lines: no more than two blank lines together, and none at
//! the end.

use vstd::prelude::*;
use crate::text::{
    all_ws, contains_str, join, occurs_at, starts_with, find_char, find_str, lacks, all_lack, lines, spaces, pad_right, split_char, trim, words,
    lemma_find_char, lemma_join_lacks, lemma_lines_lack_newline, lemma_split_lacks,
    lemma_trim_lacks, lemma_words_lack, lemma_words_empty,
};
use crate::formatter::{indent, rst_sp};
use crate::formatter::comments::{fixed_comment, line_with_comment, split_comment};
use crate::formatter::instructions::{
    formatted_statement, lemma_trimmed_spacing_defined, normalize_spacing, spacing_defined,
};
use crate::formatter::labels::{label_with_data, separated};
use crate::formatter::arrays::{
    array_block, array_next, comma_lines, continuation, lemma_rst_run_bound, multiline_lines,
    rst_line_value, rst_values, rst_run, is_rst_line,
};
use crate::formatter::document::{
    format_from, formatted_code_line, formatted_document, lemma_trailing_empty_bound, push_blank,
    remove_spaces, starts_array_here, trailing_empty,
};
use crate::formatter::blank_lines::{law_blank_runs_compressed, short_blank_runs, three_empty};

verus! {

proof fn lemma_sub_lacks(s: Seq<char>, a: int, b: int)
    requires
        lacks(s, '\n'),
        0 <= a <= b <= s.len(),
    ensures
        lacks(s.subrange(a, b), '\n'),
{
    assert forall|i: int| 0 <= i < b - a implies s.subrange(a, b)[i] != '\n' by {
        assert(s.subrange(a, b)[i] == s[a + i]);
    }
}

proof fn lemma_split_comment_lacks(t: Seq<char>)
    requires
        lacks(t, '\n'),
    ensures
        lacks(split_comment(t).0, '\n'),
        spacing_defined(split_comment(t).0),
        split_comment(t).1 matches Some(c) ==> lacks(c, '\n'),
{
    lemma_find_char(t, ';');
    match find_char(t, ';') {
        Some(k) => {
            lemma_trimmed_spacing_defined(t.take(k as int));
            lemma_sub_lacks(t, 0, k as int);
            lemma_sub_lacks(t, k as int, t.len() as int);
            assert(t.take(k as int) =~= t.subrange(0, k as int));
            assert(t.skip(k as int) =~= t.subrange(k as int, t.len() as int));
            lemma_trim_lacks(t.take(k as int), '\n');
            lemma_trim_lacks(t.skip(k as int), '\n');
        },
        None => {
            lemma_trim_lacks(t, '\n');
            lemma_trimmed_spacing_defined(t);
        },
    }
}

proof fn lemma_normalize_lacks(t: Seq<char>)
    requires
        lacks(t, '\n'),
        spacing_defined(t),
    ensures
        lacks(normalize_spacing(t), '\n'),
{
    let ws = words(t);
    lemma_words_lack(t, '\n');
    lemma_words_empty(t);
    if ws.len() > 0 {
        assert(all_lack(ws.skip(1), '\n')) by {
            assert forall|k: int| 0 <= k < ws.skip(1).len() implies lacks(
                #[trigger] ws.skip(1)[k],
                '\n',
            ) by {
                assert(ws.skip(1)[k] == ws[k + 1]);
            }
        }
        lemma_join_lacks(ws.skip(1), seq![' '], '\n');
        assert(lacks(ws[0], '\n'));
    }
}

proof fn lemma_line_with_comment_lacks(base: Seq<char>, c: Seq<char>, w: nat)
    requires
        lacks(base, '\n'),
        lacks(c, '\n'),
    ensures
        lacks(line_with_comment(base, c, w), '\n'),
{
    let f = fixed_comment(c);
    assert(lacks(f, '\n')) by {
        if c.len() > 1 && f != c {
            assert forall|i: int| 0 <= i < f.len() implies f[i] != '\n' by {
                if i >= 2 {
                    assert(f[i] == c[i - 1]);
                }
            }
        }
    }
    assert(lacks(pad_right(base, w), '\n'));
}

proof fn lemma_statement_lacks(t: Seq<char>)
    requires
        lacks(t, '\n'),
    ensures
        lacks(formatted_statement(t), '\n'),
{
    lemma_split_comment_lacks(t);
    let (code, comment) = split_comment(t);
    lemma_normalize_lacks(code);
    match comment {
        Some(c) => lemma_line_with_comment_lacks(normalize_spacing(code), c, 20),
        None => {},
    }
}

proof fn lemma_remove_spaces_lacks(s: Seq<char>)
    requires
        lacks(s, '\n'),
    ensures
        lacks(remove_spaces(s), '\n'),
    decreases s.len(),
{
    if s.len() > 0 {
        lemma_remove_spaces_lacks(s.drop_last());
    }
}

proof fn lemma_label_with_data_lacks(t: Seq<char>)
    requires
        lacks(t, '\n'),
    ensures
        lacks(label_with_data(t), '\n'),
{
    lemma_find_char(t, ':');
    match find_char(t, ':') {
        Some(k) => {
            lemma_sub_lacks(t, 0, k as int);
            lemma_sub_lacks(t, k + 1int, t.len() as int);
            assert(t.take(k as int) =~= t.subrange(0, k as int));
            assert(t.skip(k + 1int) =~= t.subrange(k + 1int, t.len() as int));
            lemma_trim_lacks(t.take(k as int), '\n');
            lemma_trim_lacks(t.skip(k + 1int), '\n');
            let dp = trim(t.skip(k + 1int));
            lemma_split_comment_lacks(dp);
            let (data, comment) = split_comment(dp);
            lemma_normalize_lacks(data);
            let base = trim(t.take(k as int)) + seq![':', ' '] + normalize_spacing(data);
            match comment {
                Some(c) => lemma_line_with_comment_lacks(base, c, 20),
                None => {},
            }
        },
        None => {},
    }
}

proof fn lemma_code_line_lacks(t: Seq<char>)
    requires
        lacks(t, '\n'),
    ensures
        all_lack(formatted_code_line(t), '\n'),
{
    lemma_label_with_data_lacks(t);
    lemma_remove_spaces_lacks(t);
    lemma_statement_lacks(t);
    lemma_find_char(t, ':');
    match find_char(t, ':') {
        Some(k) => {
            lemma_sub_lacks(t, 0, k as int);
            lemma_sub_lacks(t, k + 1int, t.len() as int);
            assert(t.take(k as int) =~= t.subrange(0, k as int));
            assert(t.skip(k + 1int) =~= t.subrange(k + 1int, t.len() as int));
            lemma_trim_lacks(t.take(k as int), '\n');
            lemma_trim_lacks(t.skip(k + 1int), '\n');
            lemma_statement_lacks(trim(t.skip(k + 1int)));
        },
        None => {},
    }
    let f = formatted_code_line(t);
    assert forall|j: int| 0 <= j < f.len() implies lacks(#[trigger] f[j], '\n') by {}
}

proof fn lemma_rst_values_lacks(code: Seq<char>, p: nat)
    requires
        lacks(code, '\n'),
        find_str(code, crate::formatter::rst()) == Some(p),
    ensures
        all_lack(rst_values(code, p), '\n'),
        rst_values(code, p).len() >= 1,
{
    crate::text::lemma_split_char_nonempty(trim(code.skip(p + 3int)), ',');
    crate::text::lemma_find_str(code, crate::formatter::rst());
    lemma_sub_lacks(code, p + 3int, code.len() as int);
    assert(code.skip(p + 3int) =~= code.subrange(p + 3int, code.len() as int));
    lemma_trim_lacks(code.skip(p + 3int), '\n');
    let rest = trim(code.skip(p + 3int));
    lemma_split_lacks(rest, ',', '\n');
    let vals = rst_values(code, p);
    assert forall|j: int| 0 <= j < vals.len() implies lacks(#[trigger] vals[j], '\n') by {
        assert(lacks(split_char(rest, ',')[j], '\n'));
        lemma_trim_lacks(split_char(rest, ',')[j], '\n');
    }
}

/// The lines of a run of array lines each continue the array.
proof fn lemma_rst_run_lines(ls: Seq<Seq<char>>, j: nat, k: nat)
    requires
        k < rst_run(ls, j),
    ensures
        j + k < ls.len(),
        is_rst_line(ls[(j + k) as int]),
    decreases k,
{
    if k > 0 {
        lemma_rst_run_lines(ls, j + 1, (k - 1) as nat);
    }
}

proof fn lemma_array_block_lacks(ls: Seq<Seq<char>>, i: nat)
    requires
        i < ls.len(),
        all_lack(ls, '\n'),
    ensures
        all_lack(array_block(ls, i), '\n'),
{
    let first = trim(ls[i as int]);
    assert(lacks(ls[i as int], '\n'));
    lemma_trim_lacks(ls[i as int], '\n');
    lemma_label_with_data_lacks(first);
    lemma_find_char(first, ':');
    let b = array_block(ls, i);
    match find_char(first, ':') {
        Some(k) => {
            lemma_sub_lacks(first, 0, k as int);
            lemma_sub_lacks(first, k + 1int, first.len() as int);
            assert(first.take(k as int) =~= first.subrange(0, k as int));
            assert(first.skip(k + 1int) =~= first.subrange(k + 1int, first.len() as int));
            lemma_trim_lacks(first.take(k as int), '\n');
            lemma_trim_lacks(first.skip(k + 1int), '\n');
            let label = trim(first.take(k as int));
            let data_part = trim(first.skip(k + 1int));
            lemma_split_comment_lacks(data_part);
            let (code, comment) = split_comment(data_part);
            assert forall|j: int| 0 <= j < b.len() implies lacks(#[trigger] b[j], '\n') by {
                if crate::text::contains_char(data_part, ',') {
                    match find_str(code, crate::formatter::rst()) {
                        Some(p) => {
                            let vals = rst_values(code, p);
                            lemma_rst_values_lacks(code, p);
                            if j == 0 {
                                let head = label + seq![':', ' '] + rst_sp() + vals[0];
                                assert(lacks(vals[0], '\n'));
                                match comment {
                                    Some(c) => lemma_line_with_comment_lacks(head, c, 20),
                                    None => {},
                                }
                            } else {
                                assert(b[j] == continuation(label, vals.skip(1)[j - 1]));
                                assert(vals.skip(1)[j - 1] == vals[j]);
                                assert(lacks(vals[j], '\n'));
                            }
                        },
                        None => {},
                    }
                } else if j > 0 {
                    let line = ls[i + 1 + (j - 1)];
                    lemma_rst_run_bound(ls, i + 1);
                    lemma_rst_run_lines(ls, i + 1, (j - 1) as nat);
                    assert(lacks(line, '\n'));
                    lemma_trim_lacks(line, '\n');
                    let tl = trim(line);
                    lemma_sub_lacks(tl, 4, tl.len() as int);
                    assert(tl.skip(4) =~= tl.subrange(4, tl.len() as int));
                    lemma_trim_lacks(tl.skip(4), '\n');
                    assert(b[j] == continuation(label, rst_line_value(line)));
                }
            }
        },
        None => {},
    }
}

/// No formatted line holds a line ending.
pub proof fn lemma_format_from_lacks(ls: Seq<Seq<char>>, i: nat, found: bool, out: Seq<Seq<char>>)
    requires
        all_lack(ls, '\n'),
        all_lack(out, '\n'),
    ensures
        all_lack(format_from(ls, i, found, out), '\n'),
    decreases ls.len() - i,
{
    if i < ls.len() {
        let t = trim(ls[i as int]);
        assert(lacks(ls[i as int], '\n'));
        lemma_trim_lacks(ls[i as int], '\n');
        if t.len() == 0 {
            let o = push_blank(out);
            assert(all_lack(o, '\n')) by {
                assert forall|k: int| 0 <= k < o.len() implies lacks(#[trigger] o[k], '\n') by {
                    if k < out.len() {
                        assert(o[k] == out[k]);
                    }
                }
            }
            lemma_format_from_lacks(ls, i + 1, found, o);
        } else if t[0] == ';' {
            let line = if found {
                indent() + t
            } else {
                t
            };
            let o = out.push(line);
            assert(all_lack(o, '\n')) by {
                assert forall|k: int| 0 <= k < o.len() implies lacks(#[trigger] o[k], '\n') by {
                    if k < out.len() {
                        assert(o[k] == out[k]);
                    }
                }
            }
            lemma_format_from_lacks(ls, i + 1, found, o);
        } else if starts_array_here(ls, i, t) {
            lemma_rst_run_bound(ls, i + 1);
            lemma_array_block_lacks(ls, i);
            let o = out + array_block(ls, i);
            assert(all_lack(o, '\n')) by {
                assert forall|k: int| 0 <= k < o.len() implies lacks(#[trigger] o[k], '\n') by {
                    if k < out.len() {
                        assert(o[k] == out[k]);
                    } else {
                        assert(o[k] == array_block(ls, i)[k - out.len()]);
                    }
                }
            }
            lemma_format_from_lacks(ls, array_next(ls, i), true, o);
        } else {
            lemma_code_line_lacks(t);
            let o = out + formatted_code_line(t);
            assert(all_lack(o, '\n')) by {
                assert forall|k: int| 0 <= k < o.len() implies lacks(#[trigger] o[k], '\n') by {
                    if k < out.len() {
                        assert(o[k] == out[k]);
                    } else {
                        assert(o[k] == formatted_code_line(t)[k - out.len()]);
                    }
                }
            }
            lemma_format_from_lacks(ls, i + 1, true, o);
        }
    }
}

/// No formatted line of a document holds a line ending.
pub proof fn lemma_document_lines_lack(content: Seq<char>)
    ensures
        all_lack(format_from(lines(content), 0, false, seq![]), '\n'),
{
    lemma_lines_lack_newline(content);
    lemma_format_from_lacks(lines(content), 0, false, seq![]);
}


/// Whether `s` ends with `m` line endings.
pub open spec fn ends_nl(s: Seq<char>, m: nat) -> bool {
    m <= s.len() && forall|j: int| s.len() - m <= j < s.len() ==> #[trigger] s[j] == '\n'
}

/// Four line endings in a row: three blank lines together.
pub open spec fn four_nl() -> Seq<char> {
    seq!['\n', '\n', '\n', '\n']
}

/// Three trailing empty lines are three empty lines in a row.
proof fn lemma_trailing_three(out: Seq<Seq<char>>)
    requires
        trailing_empty(out) >= 3,
    ensures
        out.len() >= 3,
        three_empty(out, out.len() - 3),
{
    reveal_with_fuel(trailing_empty, 4);
    let d = out.drop_last();
    let dd = d.drop_last();
    assert(d.last() == out[out.len() - 2]);
    assert(dd.last() == out[out.len() - 3]);
}

/// The text of joined lines that hold no line ending: its trailing line
/// endings are at most its trailing empty lines, and it has no four line
/// endings in a row when no three lines in a row are empty.
proof fn lemma_join_shape(ms: Seq<Seq<char>>)
    requires
        ms.len() >= 1,
        all_lack(ms, '\n'),
        short_blank_runs(ms),
    ensures
        forall|m: nat| ends_nl(join(ms, seq!['\n']), m) ==> m <= trailing_empty(ms),
        !contains_str(join(ms, seq!['\n']), four_nl()),
    decreases ms.len(),
{
    let j = join(ms, seq!['\n']);
    if ms.len() == 1 {
        assert(j == ms[0]);
        assert(lacks(ms[0], '\n'));
        assert forall|m: nat| ends_nl(j, m) implies m <= trailing_empty(ms) by {
            if m > 0 {
                assert(j[j.len() - 1] == '\n');
            }
        }
        if contains_str(j, four_nl()) {
            let i = choose|i: int| occurs_at(j, four_nl(), i);
            assert(j.subrange(i, i + 4)[0] == j[i]);
        }
    } else {
        let d = ms.drop_last();
        let x = ms.last();
        assert(lacks(x, '\n'));
        assert(short_blank_runs(d)) by {
            assert forall|i: int| 0 <= i && i + 2 < d.len() implies !#[trigger] three_empty(d, i) by {
                assert(three_empty(d, i) == three_empty(ms, i));
            }
        }
        assert(all_lack(d, '\n')) by {
            assert forall|k: int| 0 <= k < d.len() implies lacks(#[trigger] d[k], '\n') by {
                assert(d[k] == ms[k]);
            }
        }
        lemma_join_shape(d);
        let jd = join(d, seq!['\n']);
        assert(j == jd + seq!['\n'] + x);
        assert(trailing_empty(d) <= 2) by {
            if trailing_empty(d) >= 3 {
                lemma_trailing_three(d);
            }
        }
        assert forall|m: nat| ends_nl(j, m) implies m <= trailing_empty(ms) by {
            if m > 0 {
                if x.len() > 0 {
                    assert(j[j.len() - 1] == x[x.len() - 1]);
                } else {
                    assert(ends_nl(jd, (m - 1) as nat)) by {
                        assert forall|t: int| jd.len() - (m - 1) <= t < jd.len() implies #[trigger] jd[t]
                            == '\n' by {
                            assert(j[t] == jd[t]);
                        }
                    }
                }
            }
        }
        if contains_str(j, four_nl()) {
            let i = choose|i: int| occurs_at(j, four_nl(), i);
            if i + 4 <= jd.len() {
                assert(j.subrange(i, i + 4) =~= jd.subrange(i, i + 4));
                assert(occurs_at(jd, four_nl(), i));
            } else {
                if i + 4 > jd.len() + 1 {
                    let p = i + 3;
                    assert(j.subrange(i, i + 4)[3] == j[p]);
                    assert(j[p] == x[p - jd.len() - 1]);
                }
                assert(i == jd.len() - 3);
                assert(ends_nl(jd, 3)) by {
                    assert forall|t: int| jd.len() - 3 <= t < jd.len() implies #[trigger] jd[t] == '\n' by {
                        assert(j.subrange(i, i + 4)[t - i] == j[t]);
                        assert(j[t] == jd[t]);
                    }
                }
            }
        }
    }
}

/// The first line of joined lines begins the text.
proof fn lemma_join_prefix(ms: Seq<Seq<char>>)
    requires
        ms.len() >= 1,
    ensures
        join(ms, seq!['\n']).len() >= ms[0].len(),
        forall|i: int| 0 <= i < ms[0].len() ==> join(ms, seq!['\n'])[i] == ms[0][i],
    decreases ms.len(),
{
    if ms.len() > 1 {
        lemma_join_prefix(ms.drop_last());
    }
}

/// The formatted text keeps blank lines apart: it never holds three blank
/// lines in a row (four line endings together), never begins with three
/// blank lines, and never ends with a blank line (two line endings).
pub proof fn law_blank_lines_in_text(content: Seq<char>)
    ensures
        !contains_str(formatted_document(content), four_nl()),
        !starts_with(formatted_document(content), seq!['\n', '\n', '\n']),
        !ends_nl(formatted_document(content), 2),
{
    let doc = formatted_document(content);
    if all_ws(content) {
        assert(doc == seq!['\n']);
        if contains_str(doc, four_nl()) {
            let i = choose|i: int| occurs_at(doc, four_nl(), i);
        }
    } else {
        let out = format_from(lines(content), 0, false, seq![]);
        lemma_document_lines_lack(content);
        law_blank_runs_compressed(content);
        lemma_trailing_empty_bound(out);
        let kept = out.take(out.len() - trailing_empty(out));
        if kept.len() > 0 {
            lemma_kept(out);
            assert(all_lack(kept, '\n')) by {
                assert forall|k: int| 0 <= k < kept.len() implies lacks(#[trigger] kept[k], '\n') by {
                    assert(kept[k] == out[k]);
                }
            }
            assert(short_blank_runs(kept)) by {
                assert forall|i: int| 0 <= i && i + 2 < kept.len() implies !#[trigger] three_empty(
                    kept,
                    i,
                ) by {
                    assert(three_empty(kept, i) == three_empty(out, i));
                }
            }
            assert(trailing_empty(kept) == 0);
            lemma_join_shape(kept);
            let jk = join(kept, seq!['\n']);
            let ws = kept.push(seq![]);
            assert(ws.drop_last() =~= kept);
            assert(doc == jk + seq!['\n'] + Seq::<char>::empty());
            assert(doc =~= jk.push('\n'));
            if ends_nl(doc, 2) {
                assert(ends_nl(jk, 1)) by {
                    assert(jk[jk.len() - 1] == doc[doc.len() - 2]);
                }
            }
            if contains_str(doc, four_nl()) {
                let i = choose|i: int| occurs_at(doc, four_nl(), i);
                if i + 4 <= jk.len() {
                    assert(doc.subrange(i, i + 4) =~= jk.subrange(i, i + 4));
                    assert(occurs_at(jk, four_nl(), i));
                } else {
                    assert(ends_nl(jk, 3)) by {
                        assert forall|t: int| jk.len() - 3 <= t < jk.len() implies #[trigger] jk[t]
                            == '\n' by {
                            assert(doc.subrange(i, i + 4)[t - i] == doc[t]);
                            assert(doc[t] == jk[t]);
                        }
                    }
                }
            }
            if starts_with(doc, seq!['\n', '\n', '\n']) {
                assert(doc.subrange(0, 3)[0] == doc[0]);
                assert(doc.subrange(0, 3)[1] == doc[1]);
                assert(doc.subrange(0, 3)[2] == doc[2]);
                lemma_join_prefix(kept);
                assert(kept[0].len() == 0) by {
                    if kept[0].len() > 0 {
                        assert(lacks(kept[0], '\n'));
                        assert(jk[0] == kept[0][0]);
                        assert(doc[0] == jk[0]);
                    }
                }
                assert(kept.len() >= 2);
                crate::text::lemma_join_first(kept, seq!['\n']);
                let r1 = kept.skip(1);
                lemma_join_prefix(r1);
                assert(jk =~= seq!['\n'] + join(r1, seq!['\n']));
                assert(r1[0].len() == 0) by {
                    if r1[0].len() > 0 {
                        assert(lacks(kept[1], '\n'));
                        assert(doc[1] == r1[0][0]);
                    }
                }
                assert(kept.len() >= 3) by {
                    if kept.len() == 2 {
                        assert(kept.last() == kept[1]);
                    }
                }
                crate::text::lemma_join_first(r1, seq!['\n']);
                let r2 = r1.skip(1);
                lemma_join_prefix(r2);
                assert(join(r1, seq!['\n']) =~= seq!['\n'] + join(r2, seq!['\n']));
                assert(!three_empty(kept, 0));
                assert(r2[0] == kept[2]);
                assert(lacks(kept[2], '\n'));
                assert(doc[2] == r2[0][0]);
            }
        } else {
            assert(doc == Seq::<char>::empty());
            if contains_str(doc, four_nl()) {
                let i = choose|i: int| occurs_at(doc, four_nl(), i);
            }
        }
    }
}

/// What is kept of the formatted lines once trailing empty lines are
/// dropped ends with a line that is not empty.
proof fn lemma_kept(out: Seq<Seq<char>>)
    ensures
        out.take(out.len() - trailing_empty(out)).len() > 0 ==> out.take(
            out.len() - trailing_empty(out),
        ).last().len() > 0,
    decreases out.len(),
{
    if out.len() > 0 && out.last().len() == 0 {
        lemma_kept(out.drop_last());
        lemma_trailing_empty_bound(out.drop_last());
        let n = out.len() - trailing_empty(out);
        assert(out.take(n) =~= out.drop_last().take(n));
    }
}

} // verus!
