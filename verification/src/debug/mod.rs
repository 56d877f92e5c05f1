//! The boxed panels that the debugger and the runner print: the program's
//! output, the banner shown when a program is loaded, and the machine's
//! registers. Each panel is computed here as the exact lines to print.

pub mod program_output;
pub mod program_banner;
pub mod machine_state;
pub mod listings;

use vstd::prelude::*;
use crate::text::{spaces, spaces_exec, extend_chars, chars_of};

verus! {

/// The escape sequence that ends a colour.
pub const RESET: &'static str = "\x1b[0m";

/// `n` copies of `c` (`str::repeat` on a one-character string).
pub open spec fn repeat_char(c: char, n: nat) -> Seq<char> {
    Seq::new(n, |i: int| c)
}

/// A horizontal edge of a box `width` characters wide: `left`, then `mid`
/// repeated `width - 2` times, then `right`.
pub open spec fn border(left: char, mid: char, right: char, width: nat) -> Seq<char> {
    seq![left] + repeat_char(mid, (width - 2) as nat) + seq![right]
}

/// A row of a box: the left edge, `pad` spaces, `body`, `rem` spaces, the
/// colour reset and the right edge.
pub open spec fn boxed(pad: nat, body: Seq<char>, rem: nat) -> Seq<char> {
    seq!['│'] + spaces(pad) + body + spaces(rem) + RESET@ + seq!['│']
}

/// A row of a box `width` wide that centres a text of `text_len` visible
/// characters, printed as `body`; an odd leftover space goes to the right.
pub open spec fn centered(width: nat, text_len: nat, body: Seq<char>) -> Seq<char> {
    let room = (width - 2 - text_len) as nat;
    boxed(room / 2, body, (room - room / 2) as nat)
}

/// A row that centres `text` printed in `color`.
pub open spec fn center_text(width: nat, text: Seq<char>, color: Seq<char>) -> Seq<char> {
    centered(width, text.len(), color + text)
}

/// The larger of two numbers.
pub open spec fn max_nat(a: nat, b: nat) -> nat {
    if a >= b {
        a
    } else {
        b
    }
}

pub fn repeat_char_exec(c: char, n: usize) -> (r: Vec<char>)
    ensures
        r@ == repeat_char(c, n as nat),
{
    let mut r: Vec<char> = Vec::new();
    let mut i: usize = 0;
    while i < n
        invariant
            i <= n,
            r@ == repeat_char(c, i as nat),
        decreases n - i,
    {
        r.push(c);
        i += 1;
        assert(r@ =~= repeat_char(c, i as nat));
    }
    r
}

pub fn border_exec(left: char, mid: char, right: char, width: usize) -> (r: Vec<char>)
    requires
        width >= 2,
    ensures
        r@ == border(left, mid, right, width as nat),
{
    let mut r = vec![left];
    let m = repeat_char_exec(mid, width - 2);
    extend_chars(&mut r, &m);
    r.push(right);
    assert(r@ =~= border(left, mid, right, width as nat));
    r
}

pub fn boxed_exec(pad: usize, body: &Vec<char>, rem: usize) -> (r: Vec<char>)
    ensures
        r@ == boxed(pad as nat, body@, rem as nat),
{
    let mut r = vec!['│'];
    let p = spaces_exec(pad);
    extend_chars(&mut r, &p);
    extend_chars(&mut r, body);
    let q = spaces_exec(rem);
    extend_chars(&mut r, &q);
    let reset = chars_of(RESET);
    extend_chars(&mut r, &reset);
    r.push('│');
    assert(r@ =~= boxed(pad as nat, body@, rem as nat));
    r
}

pub fn centered_exec(width: usize, text_len: usize, body: &Vec<char>) -> (r: Vec<char>)
    requires
        text_len + 2 <= width,
    ensures
        r@ == centered(width as nat, text_len as nat, body@),
{
    let room = width - 2 - text_len;
    boxed_exec(room / 2, body, room - room / 2)
}

} // verus!
