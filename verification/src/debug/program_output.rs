//! The `OUTPUT` panel: every word a program wrote, in decimal and in
//! hexadecimal, inside a box.

use vstd::prelude::*;
use crate::text::{
    contains_str, lemma_contains_middle, spaces, decimal, hex_padded, decimal_exec, hex_padded_exec,
    chars_of, extend_chars, string_of,
    string_views, lemma_digit_bounds,
};
use super::{RESET, border, centered, center_text, max_nat, border_exec, centered_exec};

verus! {

/// The colour of the panel's title.
pub const TITLE_COLOR: &'static str = "\x1b[1m\x1b[38;5;249m";

/// The colour of a value.
pub const VALUE_COLOR: &'static str = "\x1b[1m\x1b[38;5;117m";

/// A value as `decimal (0xHHHH)`.
pub open spec fn value_text(v: u16) -> Seq<char> {
    decimal(v as nat) + seq![' ', '(', '0', 'x'] + hex_padded(v as nat, 4) + seq![')']
}

/// The visible text of the entry for the `i`-th value: `[i] ` in front of it
/// when the program wrote more than one value. All of it is ASCII, so its
/// length in characters is its length in bytes.
pub open spec fn entry_text(i: nat, v: u16, numbered: bool) -> Seq<char> {
    if numbered {
        seq!['['] + decimal(i) + seq![']', ' '] + value_text(v)
    } else {
        value_text(v)
    }
}

/// The entry for the `i`-th value as printed: its text in the value
/// colour, so that `[i] value` stands in the output as it is.
pub open spec fn entry_colored(i: nat, v: u16, numbered: bool) -> Seq<char> {
    VALUE_COLOR@ + entry_text(i, v, numbered) + RESET@
}

/// The visible texts of all entries.
pub open spec fn entry_texts(buf: Seq<u16>) -> Seq<Seq<char>> {
    Seq::new(buf.len(), |i: int| entry_text(i as nat, buf[i], buf.len() > 1))
}

/// The length of the longest of `lines`, or `floor` when that is longer.
pub open spec fn longest(lines: Seq<Seq<char>>, floor: nat) -> nat
    decreases lines.len(),
{
    if lines.len() == 0 {
        floor
    } else {
        max_nat(longest(lines.drop_last(), floor), lines.last().len())
    }
}

/// The width of the panel: four more than its longest text, and at least 20.
pub open spec fn output_width(buf: Seq<u16>) -> nat {
    max_nat(longest(entry_texts(buf), "OUTPUT"@.len()) + 4, 20)
}

/// The lines that show the output `buf`: none when it is empty; otherwise a
/// blank line, then a box with the title `OUTPUT` and one centred row per
/// value.
pub open spec fn output_panel(buf: Seq<u16>) -> Seq<Seq<char>> {
    if buf.len() == 0 {
        seq![]
    } else {
        let w = output_width(buf);
        let texts = entry_texts(buf);
        seq![
            Seq::<char>::empty(),
            border('┌', '─', '┐', w),
            center_text(w, "OUTPUT"@, TITLE_COLOR@),
            border('├', '─', '┤', w),
        ] + Seq::new(
            buf.len(),
            |i: int| centered(w, texts[i].len(), entry_colored(i as nat, buf[i], buf.len() > 1)),
        ) + seq![border('└', '─', '┘', w)]
    }
}

fn value_text_exec(v: u16) -> (r: Vec<char>)
    ensures
        r@ == value_text(v),
        r@.len() <= 14,
{
    proof {
        lemma_digit_bounds(v as nat);
    }
    let mut r = decimal_exec(v as u64);
    let open = vec![' ', '(', '0', 'x'];
    extend_chars(&mut r, &open);
    let h = hex_padded_exec(v as u64, 4);
    extend_chars(&mut r, &h);
    r.push(')');
    assert(r@ =~= value_text(v));
    r
}

fn entry_text_exec(i: usize, v: u16, numbered: bool) -> (r: Vec<char>)
    ensures
        r@ == entry_text(i as nat, v, numbered),
        r@.len() <= 37,
{
    let value = value_text_exec(v);
    if numbered {
        proof {
            lemma_digit_bounds(i as nat);
        }
        let mut r = vec!['['];
        let d = decimal_exec(i as u64);
        extend_chars(&mut r, &d);
        r.push(']');
        r.push(' ');
        extend_chars(&mut r, &value);
        assert(r@ =~= entry_text(i as nat, v, numbered));
        r
    } else {
        value
    }
}

fn entry_colored_exec(i: usize, v: u16, numbered: bool) -> (r: Vec<char>)
    ensures
        r@ == entry_colored(i as nat, v, numbered),
{
    let mut r = chars_of(VALUE_COLOR);
    let t = entry_text_exec(i, v, numbered);
    extend_chars(&mut r, &t);
    let reset = chars_of(RESET);
    extend_chars(&mut r, &reset);
    r
}

/// The lines that show what a program wrote, in the order they are printed.
pub fn program_output_lines(output_buffer: &[u16]) -> (r: Vec<String>)
    ensures
        string_views(r@) == output_panel(output_buffer@),
{
    let ghost buf = output_buffer@;
    let n = output_buffer.len();
    let mut lines: Vec<String> = Vec::new();
    if n == 0 {
        assert(string_views(lines@) =~= output_panel(buf));
        return lines;
    }
    let numbered = n > 1;
    let ghost texts = entry_texts(buf);
    let title = chars_of("OUTPUT");
    proof {
        reveal_strlit("OUTPUT");
    }
    let mut longest_len: usize = title.len();
    let mut i: usize = 0;
    while i < n
        invariant
            n == buf.len(),
            buf == output_buffer@,
            numbered == (n > 1),
            texts == entry_texts(buf),
            i <= n,
            longest_len == longest(texts.take(i as int), "OUTPUT"@.len()),
            longest_len <= 37,
        decreases n - i,
    {
        let t = entry_text_exec(i, output_buffer[i], numbered);
        assert(t@ == texts[i as int]);
        assert(texts.take(i + 1).drop_last() =~= texts.take(i as int));
        if t.len() > longest_len {
            longest_len = t.len();
        }
        i += 1;
    }
    assert(texts.take(n as int) =~= texts);
    let width: usize = if longest_len + 4 > 20 {
        longest_len + 4
    } else {
        20
    };
    assert(width == output_width(buf));
    lines.push(String::new());
    lines.push(string_of(&border_exec('┌', '─', '┐', width)));
    let mut title_row = chars_of(TITLE_COLOR);
    extend_chars(&mut title_row, &title);
    lines.push(string_of(&centered_exec(width, title.len(), &title_row)));
    lines.push(string_of(&border_exec('├', '─', '┤', width)));
    let ghost head = string_views(lines@);
    assert(head =~= seq![
        Seq::<char>::empty(),
        border('┌', '─', '┐', width as nat),
        center_text(width as nat, "OUTPUT"@, TITLE_COLOR@),
        border('├', '─', '┤', width as nat),
    ]);
    let mut k: usize = 0;
    while k < n
        invariant
            n == buf.len(),
            buf == output_buffer@,
            numbered == (n > 1),
            texts == entry_texts(buf),
            width == output_width(buf),
            longest(texts, "OUTPUT"@.len()) <= 37,
            k <= n,
            lines.len() == 4 + k,
            string_views(lines@) =~= head + Seq::new(
                k as nat,
                |j: int| centered(width as nat, texts[j].len(), entry_colored(j as nat, buf[j], numbered)),
            ),
        decreases n - k,
    {
        let t = entry_text_exec(k, output_buffer[k], numbered);
        proof {
            lemma_longest_bound(texts, "OUTPUT"@.len(), k as int);
        }
        assert(t@ == texts[k as int]);
        let c = entry_colored_exec(k, output_buffer[k], numbered);
        let row = string_of(&centered_exec(width, t.len(), &c));
        let ghost before = string_views(lines@);
        lines.push(row);
        assert(string_views(lines@) =~= before.push(row@));
        k += 1;
    }
    let ghost rows = string_views(lines@);
    let bottom = string_of(&border_exec('└', '─', '┘', width));
    lines.push(bottom);
    assert(string_views(lines@) =~= rows.push(bottom@));
    assert(string_views(lines@) =~= output_panel(buf));
    lines
}

/// Every line is at most as long as the longest.
proof fn lemma_longest_bound(lines: Seq<Seq<char>>, floor: nat, i: int)
    requires
        0 <= i < lines.len(),
    ensures
        lines[i].len() <= longest(lines, floor),
        floor <= longest(lines, floor),
    decreases lines.len(),
{
    if i < lines.len() - 1 {
        lemma_longest_bound(lines.drop_last(), floor, i);
    } else if lines.len() > 1 {
        lemma_longest_bound(lines.drop_last(), floor, 0);
    }
}


/// The row of each value shows its text as it is: `[i] value (0xHHHH)`
/// when there are several values, `value (0xHHHH)` when there is one.
pub proof fn law_output_shows_values(buf: Seq<u16>)
    ensures
        buf.len() == 0 ==> output_panel(buf).len() == 0,
        buf.len() > 0 ==> output_panel(buf).len() == buf.len() + 5,
        forall|i: int|
            0 <= i < buf.len() ==> contains_str(
                #[trigger] output_panel(buf)[4 + i],
                entry_text(i as nat, buf[i], buf.len() > 1),
            ),
{
    if buf.len() > 0 {
        let w = output_width(buf);
        let texts = entry_texts(buf);
        assert forall|i: int| 0 <= i < buf.len() implies contains_str(
            #[trigger] output_panel(buf)[4 + i],
            entry_text(i as nat, buf[i], buf.len() > 1),
        ) by {
            let t = entry_text(i as nat, buf[i], buf.len() > 1);
            let row = output_panel(buf)[4 + i];
            assert(row == centered(w, texts[i].len(), entry_colored(i as nat, buf[i], buf.len() > 1)));
            let room = (w - 2 - texts[i].len()) as nat;
            let head = seq!['│'] + spaces(room / 2) + VALUE_COLOR@;
            let tail = row.skip((head.len() + t.len()) as int);
            assert(row =~= head + t + tail);
            lemma_contains_middle(head, t, tail);
        }
    }
}

} // verus!
