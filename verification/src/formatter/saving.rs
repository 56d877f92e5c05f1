//! Where a formatted file is written.

use vstd::prelude::*;
use crate::cli::args::opt_view;
use crate::text::{chars_of, replace_all, replace_all_exec, string_of};

verus! {

/// Whether `s` ends with `p` (`str::ends_with`).
pub open spec fn ends_with(s: Seq<char>, p: Seq<char>) -> bool {
    p.len() <= s.len() && s.skip(s.len() - p.len()) == p
}

/// The file the formatted text of `file_path` goes to: the output file when
/// one is named; else `.asmod` replaced by `-formatted.asmod` wherever it
/// occurs in a path that ends with `.asmod`; else the path with `.formatted`
/// appended.
pub open spec fn output_path(file_path: Seq<char>, output_file: Option<Seq<char>>) -> Seq<char> {
    match output_file {
        Some(o) => o,
        None => if ends_with(file_path, ".asmod"@) {
            replace_all(file_path, ".asmod"@, "-formatted.asmod"@)
        } else {
            file_path + ".formatted"@
        },
    }
}

/// Whether `v` ends with `p`.
fn ends_with_exec(v: &Vec<char>, p: &Vec<char>) -> (r: bool)
    ensures
        r == ends_with(v@, p@),
{
    if p.len() > v.len() {
        return false;
    }
    let off = v.len() - p.len();
    let mut i: usize = 0;
    while i < p.len()
        invariant
            off + p.len() == v.len(),
            i <= p.len(),
            forall|j: int| 0 <= j < i ==> v@[off + j] == p@[j],
        decreases p.len() - i,
    {
        if v[off + i] != p[i] {
            assert(v@.skip(off as int)[i as int] != p@[i as int]);
            return false;
        }
        i += 1;
    }
    assert(v@.skip(off as int) =~= p@);
    true
}

/// The file where the formatted text of `file_path` is saved.
pub fn formatted_output_path(file_path: &str, output_file: &Option<String>) -> (r: String)
    ensures
        r@ == output_path(file_path@, opt_view(*output_file)),
{
    match output_file {
        Some(o) => o.clone(),
        None => {
            let v = chars_of(file_path);
            let ext = chars_of(".asmod");
            proof {
                reveal_strlit(".asmod");
            }
            if ends_with_exec(&v, &ext) {
                string_of(&replace_all_exec(&v, &ext, &chars_of("-formatted.asmod")))
            } else {
                let mut r = file_path.to_owned();
                r.append(".formatted");
                r
            }
        },
    }
}

} // verus!
