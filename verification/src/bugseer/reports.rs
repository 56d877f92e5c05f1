//! What the debugger prints about breakpoints and memory.

use vstd::prelude::*;
use crate::text::{
    decimal, hex_padded, zero_pad, decimal_exec, hex_padded_exec, string_of, string_views,
};

verus! {

/// The lines that list the breakpoints `bps`.
pub open spec fn breakpoint_listing(bps: Seq<u16>) -> Seq<Seq<char>> {
    if bps.len() == 0 {
        seq!["No breakpoints set."@]
    } else {
        seq!["Breakpoints:"@] + Seq::new(bps.len(), |i: int| "  "@ + decimal(bps[i] as nat))
    }
}

/// One word of a memory dump: the address in four decimal digits, the
/// value in four hexadecimal digits, then the value in decimal.
pub open spec fn dump_line(addr: u16, value: u16) -> Seq<char> {
    "  "@ + zero_pad(decimal(addr as nat), 4) + ": "@ + hex_padded(value as nat, 4) + " ("@
        + decimal(value as nat) + ")"@
}

/// The lines that show the memory words `words` (address and value).
pub open spec fn dump_listing(words: Seq<(u16, u16)>) -> Seq<Seq<char>> {
    seq!["Memory dump:"@] + Seq::new(words.len(), |i: int| dump_line(words[i].0, words[i].1))
}

/// The lines that list the breakpoints `bps`, in their order.
pub fn breakpoint_lines(bps: &Vec<u16>) -> (r: Vec<String>)
    ensures
        string_views(r@) == breakpoint_listing(bps@),
{
    let mut lines: Vec<String> = Vec::new();
    if bps.len() == 0 {
        lines.push("No breakpoints set.".to_owned());
        assert(string_views(lines@) =~= breakpoint_listing(bps@));
        return lines;
    }
    lines.push("Breakpoints:".to_owned());
    let mut i: usize = 0;
    while i < bps.len()
        invariant
            bps@.len() > 0,
            i <= bps@.len(),
            string_views(lines@) == breakpoint_listing(bps@).take(i + 1),
        decreases bps@.len() - i,
    {
        let mut line = "  ".to_owned();
        line.append(string_of(&decimal_exec(bps[i] as u64)).as_str());
        let ghost before = string_views(lines@);
        lines.push(line);
        i += 1;
        assert(string_views(lines@) =~= before.push(line@));
        assert(string_views(lines@) =~= breakpoint_listing(bps@).take(i + 1));
    }
    assert(breakpoint_listing(bps@).take(bps@.len() + 1int) =~= breakpoint_listing(bps@));
    lines
}

/// `n` in decimal, zero-padded to four digits.
fn decimal4(n: u16) -> (r: String)
    ensures
        r@ == zero_pad(decimal(n as nat), 4),
{
    let d = decimal_exec(n as u64);
    let mut r = String::new();
    let mut k: usize = d.len();
    while k < 4
        invariant
            d.len() <= k <= 4 || (d.len() > 4 && k == d.len()),
            r@ == Seq::new((k - d.len()) as nat, |j: int| '0'),
        decreases 4 - k,
    {
        r.append("0");
        proof {
            reveal_strlit("0");
        }
        k += 1;
        assert(r@ =~= Seq::new((k - d.len()) as nat, |j: int| '0'));
    }
    r.append(string_of(&d).as_str());
    assert(d.len() >= 4 ==> r@ =~= d@);
    r
}

/// The lines that show the memory words `words`, each an address and the
/// value stored there, in their order.
pub fn memory_dump_lines(words: &Vec<(u16, u16)>) -> (r: Vec<String>)
    ensures
        string_views(r@) == dump_listing(words@),
{
    let mut lines: Vec<String> = Vec::new();
    lines.push("Memory dump:".to_owned());
    let mut i: usize = 0;
    while i < words.len()
        invariant
            i <= words@.len(),
            string_views(lines@) == dump_listing(words@).take(i + 1),
        decreases words@.len() - i,
    {
        let (addr, value) = words[i];
        let mut line = "  ".to_owned();
        line.append(decimal4(addr).as_str());
        line.append(": ");
        line.append(string_of(&hex_padded_exec(value as u64, 4)).as_str());
        line.append(" (");
        line.append(string_of(&decimal_exec(value as u64)).as_str());
        line.append(")");
        let ghost before = string_views(lines@);
        lines.push(line);
        i += 1;
        assert(string_views(lines@) =~= before.push(line@));
        assert(string_views(lines@) =~= dump_listing(words@).take(i + 1));
    }
    assert(dump_listing(words@).take(words@.len() + 1int) =~= dump_listing(words@));
    lines
}

} // verus!
