//! The source formatter for Asmodeus assembly.

pub mod comments;
pub mod instructions;
pub mod labels;
pub mod arrays;
pub mod document;
pub mod blank_lines;
pub mod saving;
pub mod line_endings;
pub mod idempotence;
pub mod comment_layout;

use vstd::prelude::*;

verus! {

/// `RST`, the directive that reserves an initialised word.
pub open spec fn rst() -> Seq<char> {
    seq!['R', 'S', 'T']
}

/// `RST ` with its trailing space, as it starts a continuation line of an array.
pub open spec fn rst_sp() -> Seq<char> {
    seq!['R', 'S', 'T', ' ']
}

/// `RPA`, the directive that reserves an uninitialised word.
pub open spec fn rpa() -> Seq<char> {
    seq!['R', 'P', 'A']
}

/// The indentation of code lines: four spaces.
pub open spec fn indent() -> Seq<char> {
    seq![' ', ' ', ' ', ' ']
}

pub fn rst_chars() -> (r: Vec<char>)
    ensures
        r@ == rst(),
{
    let r = vec!['R', 'S', 'T'];
    assert(r@ =~= rst());
    r
}

pub fn rst_sp_chars() -> (r: Vec<char>)
    ensures
        r@ == rst_sp(),
{
    let r = vec!['R', 'S', 'T', ' '];
    assert(r@ =~= rst_sp());
    r
}

pub fn rpa_chars() -> (r: Vec<char>)
    ensures
        r@ == rpa(),
{
    let r = vec!['R', 'P', 'A'];
    assert(r@ =~= rpa());
    r
}

pub fn indent_chars() -> (r: Vec<char>)
    ensures
        r@ == indent(),
{
    let r = vec![' ', ' ', ' ', ' '];
    assert(r@ =~= indent());
    r
}

} // verus!
