//! Formatting a formatted instruction changes nothing.

use vstd::prelude::*;
use crate::text::{
    all_ws, contains_char, find_char, is_ws, join, lacks, pad_right, spaces, trim, trim_end,
    trim_start, words, lemma_find_char, lemma_join_first, lemma_join_lacks, lemma_trim,
    lemma_trim_end_append_ws, lemma_trim_of_trimmed, lemma_trim_twice, lemma_two_words,
    lemma_words_join, lemma_words_lack, lemma_words_parts,
};
use crate::formatter::comments::{fixed_comment, law_split_rebuilds, split_comment, COMMENT_COLUMN};
use crate::formatter::instructions::{formatted_statement, normalize_spacing};

verus! {

/// Normalising trimmed code without `;` gives trimmed text without `;`
/// that normalises to itself.
proof fn lemma_normalize_shape(code: Seq<char>)
    requires
        code == trim(code),
        lacks(code, ';'),
    ensures
        normalize_spacing(normalize_spacing(code)) == normalize_spacing(code),
        trim(normalize_spacing(code)) == normalize_spacing(code),
        lacks(normalize_spacing(code), ';'),
{
    let f = normalize_spacing(code);
    if contains_char(code, ' ') {
        let j = choose|j: int| 0 <= j < code.len() && code[j] == ' ';
        lemma_two_words(code, j);
        let ws = words(code);
        lemma_join_first(ws, seq![' ']);
        assert(f == join(ws, seq![' ']));
        lemma_words_parts(code);
        lemma_words_join(ws);
        assert(ws[0].len() > 0);
        assert(f[ws[0].len() as int] == ' ');
        assert(contains_char(f, ' '));
        assert(normalize_spacing(f) == f);
        let d = ws.drop_last();
        let x = ws.last();
        assert(x == ws[ws.len() - 1]);
        assert(x.len() > 0 && crate::text::no_ws(x));
        assert(join(ws, seq![' ']) == join(d, seq![' ']) + seq![' '] + x);
        assert(f.last() == x.last());
        assert(!is_ws(x[x.len() - 1]));
        assert(f[0] == ws[0][0]);
        assert(!is_ws(ws[0][0]));
        lemma_trim_of_trimmed(f);
        lemma_words_lack(code, ';');
        lemma_join_lacks(ws, seq![' '], ';');
    }
}

/// Fixing the spacing after `;` twice is fixing it once; a fixed comment
/// is its own trim and begins with `;`.
proof fn lemma_fixed_shape(c: Seq<char>)
    requires
        c.len() > 0,
        c[0] == ';',
        !is_ws(c.last()),
    ensures
        fixed_comment(fixed_comment(c)) == fixed_comment(c),
        trim(fixed_comment(c)) == fixed_comment(c),
        fixed_comment(c).len() > 0,
        fixed_comment(c)[0] == ';',
{
    let fc = fixed_comment(c);
    if c.len() > 1 && !is_ws(c[1]) {
        assert(fc[1] == ' ');
        assert(is_ws(' '));
        assert(fc.last() == c.last());
    }
    lemma_trim_of_trimmed(fc);
}

/// Formatting an instruction that is already formatted changes nothing.
pub proof fn law_format_instruction_idempotent(t: Seq<char>)
    ensures
        formatted_statement(formatted_statement(t)) == formatted_statement(t),
{
    law_split_rebuilds(t);
    lemma_find_char(t, ';');
    let code = split_comment(t).0;
    let comment = split_comment(t).1;
    match find_char(t, ';') {
        Some(k) => lemma_trim_twice(t.take(k as int)),
        None => lemma_trim_twice(t),
    }
    assert(lacks(code, ';'));
    lemma_normalize_shape(code);
    let f = normalize_spacing(code);
    match comment {
        None => {
            lemma_find_char(f, ';');
            assert(formatted_statement(t) == f);
        },
        Some(c) => {
            lemma_fixed_shape(c);
            let fc = fixed_comment(c);
            let pad = pad_right(f, COMMENT_COLUMN as nat);
            let out = pad + seq![' '] + fc;
            assert(formatted_statement(t) == out);
            let k = pad.len() + 1;
            assert(out[k as int] == ';');
            assert forall|j: int| 0 <= j < k implies out[j] != ';' by {
                if j < f.len() {
                    assert(out[j] == f[j]);
                }
            }
            lemma_find_char(out, ';');
            assert(find_char(out, ';') == Some(k as nat)) by {
                match find_char(out, ';') {
                    Some(k2) => {
                        if k2 < k {
                            assert(out[k2 as int] != ';');
                        }
                    },
                    None => {
                        assert(contains_char(out, ';')) by {
                            assert(0 <= k < out.len() && out[k as int] == ';');
                        }
                    },
                }
            }
            let w = out.take(k as int).skip(f.len() as int);
            assert(out.take(k as int) =~= f + w);
            assert(all_ws(w)) by {
                assert forall|i: int| 0 <= i < w.len() implies is_ws(#[trigger] w[i]) by {
                    assert(w[i] == out[f.len() + i]);
                }
            }
            assert(trim(f + w) == f) by {
                if f.len() > 0 {
                    lemma_trim(f);
                    assert(!is_ws(f[0]));
                    assert(trim_start(f) == f);
                    assert(trim_end(f) == f);
                    assert((f + w)[0] == f[0]);
                    assert(trim_start(f + w) == f + w);
                    lemma_trim_end_append_ws(f, w);
                } else {
                    assert(f + w =~= w);
                    lemma_trim(w);
                }
            }
            assert(out.skip(k as int) =~= fc);
            assert(split_comment(out) == (f, Some(fc)));
        },
    }
}

} // verus!
