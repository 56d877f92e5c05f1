//! The banner shown when the debugger loads a program: what was loaded on
//! the left, a short reminder of the commands on the right.

use vstd::prelude::*;
use crate::text::{
    byte_len, contains_str, occurs_at, decimal, trim, decimal_exec, chars_of, extend_chars, string_of, string_views,
    trim_chars, lemma_digit_bounds, lemma_byte_len_concat, lemma_byte_len_ascii,
};
use super::{border, centered, center_text, max_nat, border_exec, centered_exec};

verus! {

pub const LEFT_TITLE_COLOR: &'static str = "\x1b[1m\x1b[38;5;69m";

pub const RIGHT_TITLE_COLOR: &'static str = "\x1b[1m\x1b[38;5;227m";

/// The colour of the `File:` and `Size:` labels.
pub const LABEL_COLOR: &'static str = "\x1b[1m\x1b[37m";

pub const PATH_COLOR: &'static str = "\x1b[1m\x1b[38;5;117m";

pub const SIZE_COLOR: &'static str = "\x1b[1m\x1b[38;5;245m";

pub const HELP_COLOR: &'static str = "\x1b[1m\x1b[38;5;249m";

/// The first line of help.
pub const HELP_LINE: &'static str = "Type 'h' or 'help' for command list";

/// The second line of help, as it is measured.
pub const QUICK_LINE: &'static str = "Quick: s=step c=continue d=display q=quit";

/// The second line of help, as it is printed: each command key in its own
/// colour.
pub const QUICK_COLORED: &'static str = "\x1b[1m\x1b[38;5;226mQuick: \x1b[1m\x1b[38;5;208ms\x1b[1m\x1b[37m=step \x1b[1m\x1b[38;5;208mc\x1b[1m\x1b[37m=continue \x1b[1m\x1b[38;5;208md\x1b[1m\x1b[37m=display \x1b[1m\x1b[38;5;208mq\x1b[1m\x1b[37m=quit";

/// `Size: N words (2N bytes)` without its label.
pub open spec fn size_detail(word_count: nat) -> Seq<char> {
    decimal(word_count) + " words ("@ + decimal(2 * word_count) + " bytes)"@
}

/// The width of the left box: four more than its longest text (the path
/// counted in bytes, as `str::len` counts it), and at least 30.
pub open spec fn left_width(path: Seq<char>, word_count: nat) -> nat {
    max_nat(
        max_nat(
            max_nat("LOADED PROGRAM"@.len(), byte_len("File: "@ + path)),
            ("Size: "@ + size_detail(word_count)).len(),
        ) + 4,
        30,
    )
}

/// The width of the right box: four more than its longest text, and at
/// least 30.
pub open spec fn right_width() -> nat {
    max_nat(
        max_nat(max_nat("QUICK HELP"@.len(), HELP_LINE@.len()), QUICK_LINE@.len()) + 4,
        30,
    )
}

/// Two boxes side by side, two spaces apart.
pub open spec fn pair(left: Seq<char>, right: Seq<char>) -> Seq<char> {
    left + seq![' ', ' '] + right
}

/// The lines of the banner for the program at `path` of `word_count` words:
/// a blank line, then the two boxes row by row.
pub open spec fn banner(path: Seq<char>, word_count: nat) -> Seq<Seq<char>> {
    let lw = left_width(path, word_count);
    let rw = right_width();
    seq![
        Seq::<char>::empty(),
        pair(border('┌', '─', '┐', lw), border('┌', '─', '┐', rw)),
        pair(
            center_text(lw, "LOADED PROGRAM"@, LEFT_TITLE_COLOR@),
            center_text(rw, "QUICK HELP"@, RIGHT_TITLE_COLOR@),
        ),
        pair(border('├', '─', '┤', lw), border('├', '─', '┤', rw)),
        pair(
            centered(
                lw,
                byte_len("File: "@ + path),
                LABEL_COLOR@ + "File: "@ + PATH_COLOR@ + trim(path),
            ),
            center_text(rw, HELP_LINE@, HELP_COLOR@),
        ),
        pair(
            centered(
                lw,
                ("Size: "@ + size_detail(word_count)).len(),
                LABEL_COLOR@ + "Size: "@ + SIZE_COLOR@ + size_detail(word_count),
            ),
            centered(rw, QUICK_LINE@.len(), QUICK_COLORED@),
        ),
        pair(border('└', '─', '┘', lw), border('└', '─', '┘', rw)),
    ]
}

fn pair_exec(left: Vec<char>, right: &Vec<char>) -> (r: String)
    ensures
        r@ == pair(left@, right@),
{
    let mut v = left;
    v.push(' ');
    v.push(' ');
    extend_chars(&mut v, right);
    assert(v@ =~= pair(left@, right@));
    string_of(&v)
}

/// `trim` does not see one more space in front.
proof fn lemma_trim_leading_space(p: Seq<char>)
    ensures
        trim(seq![' '] + p) == trim(p),
{
    assert((seq![' '] + p).drop_first() =~= p);
}

/// The lines of the banner shown when the program at `program_path`,
/// `word_count` words long, has been loaded, in the order they are printed.
pub fn program_banner_lines(program_path: &str, word_count: usize) -> (r: Vec<String>)
    requires
        byte_len(program_path@) <= isize::MAX,
        word_count <= usize::MAX / 2,
    ensures
        string_views(r@) == banner(program_path@, word_count as nat),
{
    let ghost path = program_path@;
    proof {
        reveal_strlit("LOADED PROGRAM");
        reveal_strlit("QUICK HELP");
        reveal_strlit("Type 'h' or 'help' for command list");
        reveal_strlit("Quick: s=step c=continue d=display q=quit");
        reveal_strlit("File: ");
        reveal_strlit("Size: ");
        reveal_strlit(" words (");
        reveal_strlit(" bytes)");
        lemma_digit_bounds(word_count as nat);
        lemma_digit_bounds(2 * word_count as nat);
        lemma_byte_len_concat("File: "@, path);
        lemma_byte_len_ascii("File: "@);
        lemma_trim_leading_space(path);
    }
    // The left box.
    let left_title = chars_of("LOADED PROGRAM");
    let file_len = 6 + program_path.len();
    let mut detail = decimal_exec(word_count as u64);
    let words = chars_of(" words (");
    extend_chars(&mut detail, &words);
    let bytes = decimal_exec((2 * word_count) as u64);
    extend_chars(&mut detail, &bytes);
    let unit = chars_of(" bytes)");
    extend_chars(&mut detail, &unit);
    assert(detail@ =~= size_detail(word_count as nat));
    let size_label = chars_of("Size: ");
    let size_len = size_label.len() + detail.len();
    assert(size_len == ("Size: "@ + size_detail(word_count as nat)).len());
    let mut lw = left_title.len();
    if file_len > lw {
        lw = file_len;
    }
    if size_len > lw {
        lw = size_len;
    }
    lw = if lw + 4 > 30 {
        lw + 4
    } else {
        30
    };
    assert(lw == left_width(path, word_count as nat));
    // The right box.
    let right_title = chars_of("QUICK HELP");
    let help = chars_of(HELP_LINE);
    let quick = chars_of(QUICK_LINE);
    let mut rw = right_title.len();
    if help.len() > rw {
        rw = help.len();
    }
    if quick.len() > rw {
        rw = quick.len();
    }
    rw = if rw + 4 > 30 {
        rw + 4
    } else {
        30
    };
    assert(rw == right_width());
    // The rows.
    let r0 = String::new();
    let r1 = pair_exec(border_exec('┌', '─', '┐', lw), &border_exec('┌', '─', '┐', rw));
    let mut lt = chars_of(LEFT_TITLE_COLOR);
    extend_chars(&mut lt, &left_title);
    let mut rt = chars_of(RIGHT_TITLE_COLOR);
    extend_chars(&mut rt, &right_title);
    let r2 = pair_exec(
        centered_exec(lw, left_title.len(), &lt),
        &centered_exec(rw, right_title.len(), &rt),
    );
    let r3 = pair_exec(border_exec('├', '─', '┤', lw), &border_exec('├', '─', '┤', rw));
    let mut file_row = chars_of(LABEL_COLOR);
    let file_label = chars_of("File: ");
    extend_chars(&mut file_row, &file_label);
    let path_color = chars_of(PATH_COLOR);
    extend_chars(&mut file_row, &path_color);
    let trimmed = trim_chars(&chars_of(program_path));
    extend_chars(&mut file_row, &trimmed);
    let mut help_row = chars_of(HELP_COLOR);
    extend_chars(&mut help_row, &help);
    let r4 = pair_exec(
        centered_exec(lw, file_len, &file_row),
        &centered_exec(rw, help.len(), &help_row),
    );
    let mut size_row = chars_of(LABEL_COLOR);
    extend_chars(&mut size_row, &size_label);
    let size_color = chars_of(SIZE_COLOR);
    extend_chars(&mut size_row, &size_color);
    extend_chars(&mut size_row, &detail);
    let r5 = pair_exec(
        centered_exec(lw, size_len, &size_row),
        &centered_exec(rw, quick.len(), &chars_of(QUICK_COLORED)),
    );
    let r6 = pair_exec(border_exec('└', '─', '┘', lw), &border_exec('└', '─', '┘', rw));
    let lines = vec![r0, r1, r2, r3, r4, r5, r6];
    assert(string_views(lines@) =~= banner(path, word_count as nat));
    lines
}


/// `row` holds `t` where `body` holds it, when `row` is a pair whose left box
/// is the centred row of `body`.
proof fn lemma_row_holds(lw: nat, len: nat, body: Seq<char>, right: Seq<char>, pre: Seq<char>, t: Seq<char>)
    requires
        body == pre + t,
    ensures
        contains_str(pair(centered(lw, len, body), right), t),
{
    let room = (lw - 2 - len) as nat;
    let row = pair(centered(lw, len, body), right);
    let i: int = (1 + room / 2 + pre.len()) as int;
    assert(row.subrange(i, i + t.len()) =~= t);
    assert(occurs_at(row, t, i));
}

/// The banner is seven lines; each box is at least four wider than each of
/// its texts (the path counted in bytes) and at least 30 wide; the file row
/// shows the trimmed path and the size row shows the word count and twice
/// it as the byte count.
pub proof fn law_banner_shows_program(path: Seq<char>, word_count: nat)
    ensures
        banner(path, word_count).len() == 7,
        left_width(path, word_count) >= "LOADED PROGRAM"@.len() + 4,
        left_width(path, word_count) >= byte_len("File: "@ + path) + 4,
        left_width(path, word_count) >= ("Size: "@ + size_detail(word_count)).len() + 4,
        left_width(path, word_count) >= 30,
        right_width() >= "QUICK HELP"@.len() + 4,
        right_width() >= HELP_LINE@.len() + 4,
        right_width() >= QUICK_LINE@.len() + 4,
        right_width() >= 30,
        contains_str(banner(path, word_count)[4], trim(path)),
        contains_str(banner(path, word_count)[5], size_detail(word_count)),
        size_detail(word_count) == decimal(word_count) + " words ("@ + decimal(2 * word_count)
            + " bytes)"@,
{
    let lw = left_width(path, word_count);
    let rw = right_width();
    let b = banner(path, word_count);
    lemma_row_holds(
        lw,
        byte_len("File: "@ + path),
        LABEL_COLOR@ + "File: "@ + PATH_COLOR@ + trim(path),
        center_text(rw, HELP_LINE@, HELP_COLOR@),
        LABEL_COLOR@ + "File: "@ + PATH_COLOR@,
        trim(path),
    );
    lemma_row_holds(
        lw,
        ("Size: "@ + size_detail(word_count)).len(),
        LABEL_COLOR@ + "Size: "@ + SIZE_COLOR@ + size_detail(word_count),
        centered(rw, QUICK_LINE@.len(), QUICK_COLORED@),
        LABEL_COLOR@ + "Size: "@ + SIZE_COLOR@,
        size_detail(word_count),
    );
}

} // verus!
