//! Runs of empty lines: the formatter keeps at most two empty lines together.

use vstd::prelude::*;
use crate::text::{all_ws, join, lines, trim};
use crate::formatter::{indent, rst_sp};
use crate::formatter::labels::label_with_data;
use crate::formatter::arrays::{
    array_block, array_next, continuation, lemma_rst_run_bound,
};
use crate::formatter::document::{
    format_from, formatted_code_line, formatted_document, push_blank, remove_spaces,
    starts_array_here,
    trailing_empty,
};

verus! {

/// Whether the lines `i`, `i + 1` and `i + 2` of `out` are all empty.
pub open spec fn three_empty(out: Seq<Seq<char>>, i: int) -> bool {
    out[i].len() == 0 && out[i + 1].len() == 0 && out[i + 2].len() == 0
}

/// Whether `out` never holds three empty lines in a row.
pub open spec fn short_blank_runs(out: Seq<Seq<char>>) -> bool {
    forall|i: int| 0 <= i && i + 2 < out.len() ==> !#[trigger] three_empty(out, i)
}

/// Whether no line of `ls` is empty.
pub open spec fn all_nonempty(ls: Seq<Seq<char>>) -> bool {
    forall|i: int| 0 <= i < ls.len() ==> #[trigger] ls[i].len() > 0
}

/// `out` ends with at least two empty lines exactly when its last two lines
/// are empty.
proof fn lemma_trailing_two(out: Seq<Seq<char>>)
    ensures
        trailing_empty(out) >= 2 <==> (out.len() >= 2 && out[out.len() - 1].len() == 0
            && out[out.len() - 2].len() == 0),
{
    reveal_with_fuel(trailing_empty, 3);
    if out.len() >= 2 && out.last().len() == 0 {
        assert(out.drop_last().last() == out[out.len() - 2]);
    }
}

proof fn lemma_push_blank(out: Seq<Seq<char>>)
    requires
        short_blank_runs(out),
    ensures
        short_blank_runs(push_blank(out)),
{
    lemma_trailing_two(out);
    if trailing_empty(out) < 2 {
        let n = out.push(seq![]);
        assert forall|i: int| 0 <= i && i + 2 < n.len() implies !#[trigger] three_empty(n, i) by {
            if i + 2 < out.len() {
                assert(three_empty(out, i) == three_empty(n, i));
            }
        }
    }
}

proof fn lemma_append_nonempty(out: Seq<Seq<char>>, extra: Seq<Seq<char>>)
    requires
        short_blank_runs(out),
        all_nonempty(extra),
    ensures
        short_blank_runs(out + extra),
{
    let n = out + extra;
    assert forall|i: int| 0 <= i && i + 2 < n.len() implies !#[trigger] three_empty(n, i) by {
        if i + 2 < out.len() {
            assert(three_empty(out, i) == three_empty(n, i));
        } else {
            assert(n[i + 2] == extra[i + 2 - out.len()]);
        }
    }
}

/// A label with its data is never empty.
proof fn lemma_label_with_data_nonempty(t: Seq<char>)
    requires
        t.len() > 0,
    ensures
        label_with_data(t).len() > 0,
{
}

/// Every line that a non-empty code line (not an array) is formatted to is
/// non-empty.
proof fn lemma_code_line_nonempty(t: Seq<char>)
    requires
        t.len() > 0,
    ensures
        all_nonempty(formatted_code_line(t)),
{
    let f = formatted_code_line(t);
    lemma_label_with_data_nonempty(t);
    if t.last() == ':' {
        assert(remove_spaces(t) == remove_spaces(t.drop_last()).push(t.last()));
    }
    assert forall|i: int| 0 <= i < f.len() implies #[trigger] f[i].len() > 0 by {
        assert(indent().len() == 4);
    }
}

/// Every line of an array block is non-empty.
proof fn lemma_array_block_nonempty(ls: Seq<Seq<char>>, i: nat)
    requires
        i < ls.len(),
    ensures
        all_nonempty(array_block(ls, i)),
{
    let b = array_block(ls, i);
    assert forall|j: int| 0 <= j < b.len() implies #[trigger] b[j].len() > 0 by {
        assert(rst_sp().len() == 4);
        assert forall|label: Seq<char>, v: Seq<char>| #[trigger]
            continuation(label, v).len() >= 4 by {}
    }
}

/// Formatting from line `i` on never makes three empty lines in a row.
proof fn lemma_format_from(ls: Seq<Seq<char>>, i: nat, found: bool, out: Seq<Seq<char>>)
    requires
        short_blank_runs(out),
    ensures
        short_blank_runs(format_from(ls, i, found, out)),
    decreases ls.len() - i,
{
    if i < ls.len() {
        let t = trim(ls[i as int]);
        if t.len() == 0 {
            lemma_push_blank(out);
            lemma_format_from(ls, i + 1, found, push_blank(out));
        } else if t[0] == ';' {
            let line = if found {
                indent() + t
            } else {
                t
            };
            lemma_append_nonempty(out, seq![line]);
            assert(out + seq![line] =~= out.push(line));
            lemma_format_from(ls, i + 1, found, out.push(line));
        } else if starts_array_here(ls, i, t) {
            lemma_rst_run_bound(ls, i + 1);
            lemma_array_block_nonempty(ls, i);
            lemma_append_nonempty(out, array_block(ls, i));
            lemma_format_from(ls, array_next(ls, i), true, out + array_block(ls, i));
        } else {
            lemma_code_line_nonempty(t);
            lemma_append_nonempty(out, formatted_code_line(t));
            lemma_format_from(ls, i + 1, true, out + formatted_code_line(t));
        }
    }
}

/// The formatter compresses runs of empty lines: the formatted lines of any
/// document (which `formatted_document` joins once trailing empty lines are
/// dropped) never hold three empty lines in a row.
pub proof fn law_blank_runs_compressed(content: Seq<char>)
    ensures
        short_blank_runs(format_from(lines(content), 0, false, seq![])),
{
    lemma_format_from(lines(content), 0, false, seq![]);
}


/// A formatted document ends with a line ending, unless nothing at all is
/// left of it; a document of whitespace only becomes one line ending.
pub proof fn law_ends_with_line_ending(content: Seq<char>)
    ensures
        formatted_document(content).len() == 0 || formatted_document(content).last() == '\n',
        all_ws(content) ==> formatted_document(content) == seq!['\n'],
{
    if !all_ws(content) {
        let out = format_from(lines(content), 0, false, seq![]);
        let kept = out.take(out.len() - trailing_empty(out));
        if kept.len() > 0 {
            let ws = kept.push(seq![]);
            assert(ws.drop_last() =~= kept);
            assert(join(ws, seq!['\n']) == join(kept, seq!['\n']) + seq!['\n'] + Seq::<char>::empty());
        }
    }
}

} // verus!
