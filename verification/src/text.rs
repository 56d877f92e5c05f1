//! Character-level text primitives: what `trim`, `find`, `lines`,
//! `split_whitespace` and friends compute, stated over `Seq<char>`, with
//! verified executable counterparts.

use vstd::prelude::*;

verus! {

broadcast use vstd::string::group_string_axioms;

// ---------------------------------------------------------------------------
// Specifications
// ---------------------------------------------------------------------------

/// Unicode `White_Space`, the property that `char::is_whitespace` tests.
pub open spec fn is_ws(c: char) -> bool {
    let n = c as u32;
    ||| 9 <= n <= 13
    ||| n == 32
    ||| n == 0x85
    ||| n == 0xa0
    ||| n == 0x1680
    ||| 0x2000 <= n <= 0x200a
    ||| n == 0x2028
    ||| n == 0x2029
    ||| n == 0x202f
    ||| n == 0x205f
    ||| n == 0x3000
}

/// `s` with leading whitespace removed.
pub open spec fn trim_start(s: Seq<char>) -> Seq<char>
    decreases s.len(),
{
    if s.len() > 0 && is_ws(s[0]) {
        trim_start(s.drop_first())
    } else {
        s
    }
}

/// `s` with trailing whitespace removed.
pub open spec fn trim_end(s: Seq<char>) -> Seq<char>
    decreases s.len(),
{
    if s.len() > 0 && is_ws(s.last()) {
        trim_end(s.drop_last())
    } else {
        s
    }
}

/// `s` with leading and trailing whitespace removed (`str::trim`).
pub open spec fn trim(s: Seq<char>) -> Seq<char> {
    trim_end(trim_start(s))
}

/// Whether every character of `s` is whitespace.
pub open spec fn all_ws(s: Seq<char>) -> bool {
    forall|i: int| 0 <= i < s.len() ==> is_ws(#[trigger] s[i])
}

/// The first index at or after `from` where `c` occurs.
pub open spec fn find_char_from(s: Seq<char>, c: char, from: nat) -> Option<nat>
    decreases s.len() - from,
{
    if from >= s.len() {
        None
    } else if s[from as int] == c {
        Some(from)
    } else {
        find_char_from(s, c, from + 1)
    }
}

/// The first index where `c` occurs (`str::find` with a `char` pattern).
pub open spec fn find_char(s: Seq<char>, c: char) -> Option<nat> {
    find_char_from(s, c, 0)
}

/// Whether `p` occurs in `s` at index `i`.
pub open spec fn occurs_at(s: Seq<char>, p: Seq<char>, i: int) -> bool {
    0 <= i && i + p.len() <= s.len() && s.subrange(i, i + p.len()) == p
}

/// The first index at or after `from` where `p` occurs.
pub open spec fn find_str_from(s: Seq<char>, p: Seq<char>, from: nat) -> Option<nat>
    decreases s.len() + 1 - from,
{
    if from + p.len() > s.len() {
        None
    } else if occurs_at(s, p, from as int) {
        Some(from)
    } else {
        find_str_from(s, p, from + 1)
    }
}

/// The first index where `p` occurs (`str::find` with a string pattern).
pub open spec fn find_str(s: Seq<char>, p: Seq<char>) -> Option<nat> {
    find_str_from(s, p, 0)
}

/// Whether `p` occurs in `s` (`str::contains`).
pub open spec fn contains_str(s: Seq<char>, p: Seq<char>) -> bool {
    exists|i: int| occurs_at(s, p, i)
}

/// Whether `c` occurs in `s`.
pub open spec fn contains_char(s: Seq<char>, c: char) -> bool {
    exists|i: int| 0 <= i < s.len() && s[i] == c
}

/// Whether `s` begins with `p` (`str::starts_with`).
pub open spec fn starts_with(s: Seq<char>, p: Seq<char>) -> bool {
    occurs_at(s, p, 0)
}

} // verus!

verus! {

// ---------------------------------------------------------------------------
// Executable primitives
// ---------------------------------------------------------------------------

/// Appends one character to a string (`String::push`).
#[verifier::external_body]
pub(crate) fn push_char(s: &mut String, c: char)
    ensures
        final(s)@ == old(s)@.push(c),
{
    s.push(c);
}

/// `char::is_whitespace`.
pub fn is_ws_char(c: char) -> (r: bool)
    ensures
        r == is_ws(c),
{
    let n = c as u32;
    (9 <= n && n <= 13) || n == 32 || n == 0x85 || n == 0xa0 || n == 0x1680 || (0x2000 <= n && n
        <= 0x200a) || n == 0x2028 || n == 0x2029 || n == 0x202f || n == 0x205f || n == 0x3000
}

/// The characters of `s`, in order.
pub fn chars_of(s: &str) -> (v: Vec<char>)
    ensures
        v@ == s@,
{
    let mut v: Vec<char> = Vec::new();
    for c in it: s.chars()
        invariant
            v@ == it.seq().take(it.index() as int),
            it.seq() == s@,
    {
        v.push(c);
    }
    v
}

/// A string holding exactly the characters of `v`.
pub fn string_of(v: &Vec<char>) -> (s: String)
    ensures
        s@ == v@,
{
    let mut s = String::new();
    let mut i: usize = 0;
    while i < v.len()
        invariant
            i <= v.len(),
            s@ == v@.take(i as int),
        decreases v.len() - i,
    {
        push_char(&mut s, v[i]);
        i += 1;
        assert(s@ =~= v@.take(i as int));
    }
    assert(v@.take(v.len() as int) =~= v@);
    s
}

/// Appends the characters of `w` to `v`.
pub fn extend_chars(v: &mut Vec<char>, w: &Vec<char>)
    ensures
        final(v)@ == old(v)@ + w@,
{
    let mut i: usize = 0;
    while i < w.len()
        invariant
            i <= w.len(),
            v@ == old(v)@ + w@.take(i as int),
        decreases w.len() - i,
    {
        v.push(w[i]);
        i += 1;
        assert(v@ =~= old(v)@ + w@.take(i as int));
    }
    assert(w@.take(w.len() as int) =~= w@);
}

/// The characters of `v` from `lo` up to (not including) `hi`.
pub fn sub_chars(v: &Vec<char>, lo: usize, hi: usize) -> (r: Vec<char>)
    requires
        lo <= hi <= v.len(),
    ensures
        r@ == v@.subrange(lo as int, hi as int),
{
    let mut r: Vec<char> = Vec::new();
    let mut i = lo;
    while i < hi
        invariant
            lo <= i <= hi <= v.len(),
            r@ == v@.subrange(lo as int, i as int),
        decreases hi - i,
    {
        r.push(v[i]);
        i += 1;
        assert(r@ =~= v@.subrange(lo as int, i as int));
    }
    r
}

/// The bounds, within `lo..hi`, of `v[lo..hi]` with surrounding whitespace removed.
pub fn trim_bounds(v: &Vec<char>, lo: usize, hi: usize) -> (r: (usize, usize))
    requires
        lo <= hi <= v.len(),
    ensures
        lo <= r.0 <= r.1 <= hi,
        v@.subrange(r.0 as int, r.1 as int) == trim(v@.subrange(lo as int, hi as int)),
{
    let mut a = lo;
    while a < hi && is_ws_char(v[a])
        invariant
            lo <= a <= hi <= v.len(),
            trim_start(v@.subrange(lo as int, hi as int)) == trim_start(
                v@.subrange(a as int, hi as int),
            ),
        decreases hi - a,
    {
        assert(v@.subrange(a as int, hi as int).drop_first() =~= v@.subrange(
            a + 1,
            hi as int,
        ));
        a += 1;
    }
    assert(trim_start(v@.subrange(a as int, hi as int)) == v@.subrange(a as int, hi as int));
    let mut b = hi;
    while b > a && is_ws_char(v[b - 1])
        invariant
            lo <= a <= b <= hi <= v.len(),
            trim(v@.subrange(lo as int, hi as int)) == trim_end(v@.subrange(a as int, b as int)),
        decreases b - a,
    {
        assert(v@.subrange(a as int, b as int).drop_last() =~= v@.subrange(a as int, b - 1));
        b -= 1;
    }
    (a, b)
}

/// `trim` of a whole character vector.
pub fn trim_chars(v: &Vec<char>) -> (r: Vec<char>)
    ensures
        r@ == trim(v@),
{
    let (a, b) = trim_bounds(v, 0, v.len());
    assert(v@.subrange(0, v.len() as int) =~= v@);
    sub_chars(v, a, b)
}

/// The first index where `c` occurs in `v`.
pub fn find_char_in(v: &Vec<char>, c: char) -> (r: Option<usize>)
    ensures
        match r {
            Some(k) => find_char(v@, c) == Some(k as nat) && k < v.len() && v@[k as int] == c,
            None => find_char(v@, c) is None,
        },
{
    proof {
        lemma_find_char(v@, c);
    }
    let mut i: usize = 0;
    while i < v.len()
        invariant
            i <= v.len(),
            find_char(v@, c) == find_char_from(v@, c, i as nat),
        decreases v.len() - i,
    {
        if v[i] == c {
            return Some(i);
        }
        i += 1;
    }
    None
}

/// Whether `p` occurs in `v` at index `i`.
pub fn occurs_at_exec(v: &Vec<char>, p: &Vec<char>, i: usize) -> (r: bool)
    ensures
        r == occurs_at(v@, p@, i as int),
{
    if i > v.len() || p.len() > v.len() - i {
        return false;
    }
    let mut k: usize = 0;
    while k < p.len()
        invariant
            i + p.len() <= v.len(),
            k <= p.len(),
            forall|j: int| 0 <= j < k ==> v@[i + j] == p@[j],
        decreases p.len() - k,
    {
        if v[i + k] != p[k] {
            assert(v@.subrange(i as int, i + p.len())[k as int] != p@[k as int]);
            return false;
        }
        k += 1;
    }
    assert(v@.subrange(i as int, i + p.len()) =~= p@);
    true
}

/// The first index where `p` occurs in `v`.
pub fn find_str_in(v: &Vec<char>, p: &Vec<char>) -> (r: Option<usize>)
    ensures
        match r {
            Some(k) => find_str(v@, p@) == Some(k as nat) && k + p.len() <= v.len(),
            None => find_str(v@, p@) is None,
        },
{
    proof {
        lemma_find_str(v@, p@);
    }
    if p.len() > v.len() {
        return None;
    }
    if p.len() == 0 {
        assert(v@.subrange(0, 0) =~= p@);
        return Some(0);
    }
    let mut i: usize = 0;
    while i <= v.len() - p.len()
        invariant
            0 < p.len() <= v.len(),
            i <= v.len() - p.len() + 1,
            find_str(v@, p@) == find_str_from(v@, p@, i as nat),
        decreases v.len() + 1 - i,
    {
        if occurs_at_exec(v, p, i) {
            return Some(i);
        }
        i += 1;
    }
    None
}

/// Whether `p` occurs in `v`.
pub fn contains_str_in(v: &Vec<char>, p: &Vec<char>) -> (r: bool)
    ensures
        r == contains_str(v@, p@),
{
    if p.len() > v.len() {
        return false;
    }
    if p.len() == 0 {
        assert(v@.subrange(0, 0) =~= p@);
        assert(occurs_at(v@, p@, 0));
        return true;
    }
    let mut i: usize = 0;
    while i <= v.len() - p.len()
        invariant
            0 < p.len() <= v.len(),
            i <= v.len() - p.len() + 1,
            forall|j: int| 0 <= j < i ==> !occurs_at(v@, p@, j),
        decreases v.len() + 1 - i,
    {
        if occurs_at_exec(v, p, i) {
            return true;
        }
        i += 1;
    }
    assert forall|j: int| !occurs_at(v@, p@, j) by {
        if j >= i {
            assert(!(j + p.len() <= v.len()));
        }
    }
    false
}

/// Whether `c` occurs in `v`.
pub fn contains_char_in(v: &Vec<char>, c: char) -> (r: bool)
    ensures
        r == contains_char(v@, c),
{
    let mut i: usize = 0;
    while i < v.len()
        invariant
            i <= v.len(),
            forall|j: int| 0 <= j < i ==> v@[j] != c,
        decreases v.len() - i,
    {
        if v[i] == c {
            return true;
        }
        i += 1;
    }
    false
}

/// Whether `v` begins with `p`.
pub fn starts_with_exec(v: &Vec<char>, p: &Vec<char>) -> (r: bool)
    ensures
        r == starts_with(v@, p@),
{
    occurs_at_exec(v, p, 0)
}

} // verus!

verus! {

// ---------------------------------------------------------------------------
// Splitting and joining
// ---------------------------------------------------------------------------

/// The whitespace-separated words of `s` (`str::split_whitespace`).
pub open spec fn words(s: Seq<char>) -> Seq<Seq<char>>
    decreases s.len(),
{
    if s.len() == 0 {
        seq![]
    } else {
        let p = s.drop_last();
        let c = s.last();
        let w = words(p);
        if is_ws(c) {
            w
        } else if p.len() > 0 && !is_ws(p.last()) {
            w.update(w.len() - 1, w.last().push(c))
        } else {
            w.push(seq![c])
        }
    }
}

/// The pieces of `s` between occurrences of `sep` (`str::split` with a `char`).
pub open spec fn split_char(s: Seq<char>, sep: char) -> Seq<Seq<char>>
    decreases s.len(),
{
    if s.len() == 0 {
        seq![seq![]]
    } else {
        let w = split_char(s.drop_last(), sep);
        if s.last() == sep {
            w.push(seq![])
        } else {
            w.update(w.len() - 1, w.last().push(s.last()))
        }
    }
}

/// The pieces of `ws` separated by `sep` (`[T]::join`).
pub open spec fn join(ws: Seq<Seq<char>>, sep: Seq<char>) -> Seq<char>
    decreases ws.len(),
{
    if ws.len() == 0 {
        seq![]
    } else if ws.len() == 1 {
        ws[0]
    } else {
        join(ws.drop_last(), sep) + sep + ws.last()
    }
}

/// `p` without one trailing carriage return.
pub open spec fn strip_cr(p: Seq<char>) -> Seq<char> {
    if p.len() > 0 && p.last() == '\r' {
        p.drop_last()
    } else {
        p
    }
}

/// The lines of `s` (`str::lines`): split at `\n`, a `\r` just before a `\n`
/// dropped, and no empty line after a final line ending.
pub open spec fn lines(s: Seq<char>) -> Seq<Seq<char>> {
    let parts = split_char(s, '\n');
    let n = parts.len();
    let init = parts.take(n - 1).map_values(|p: Seq<char>| strip_cr(p));
    if parts[n - 1].len() == 0 {
        init
    } else {
        init.push(parts[n - 1])
    }
}

/// `n` spaces.
pub open spec fn spaces(n: nat) -> Seq<char> {
    Seq::new(n, |i: int| ' ')
}

/// `s` padded on the right with spaces to at least `w` characters
/// (`format!("{:<w$}", s)`).
pub open spec fn pad_right(s: Seq<char>, w: nat) -> Seq<char> {
    if s.len() < w {
        s + spaces((w - s.len()) as nat)
    } else {
        s
    }
}

/// The length of `s` in bytes when encoded as UTF-8 (`str::len`).
pub open spec fn byte_len(s: Seq<char>) -> nat {
    vstd::utf8::encode_utf8(s).len()
}

pub proof fn lemma_split_char_nonempty(s: Seq<char>, sep: char)
    ensures
        split_char(s, sep).len() >= 1,
    decreases s.len(),
{
    if s.len() > 0 {
        lemma_split_char_nonempty(s.drop_last(), sep);
    }
}

/// `words(s)` is empty exactly when `s` is all whitespace; a last character
/// that is not whitespace ends the last word.
pub proof fn lemma_words_empty(s: Seq<char>)
    ensures
        words(s).len() == 0 <==> all_ws(s),
        s.len() > 0 && !is_ws(s.last()) ==> words(s).len() > 0,
    decreases s.len(),
{
    if s.len() > 0 {
        let p = s.drop_last();
        lemma_words_empty(p);
        if all_ws(s) {
            assert(all_ws(p)) by {
                assert forall|i: int| 0 <= i < p.len() implies is_ws(#[trigger] p[i]) by {
                    assert(is_ws(s[i]));
                }
            }
        }
        if !all_ws(s) && is_ws(s.last()) {
            assert(!all_ws(p)) by {
                let i = choose|i: int| 0 <= i < s.len() && !is_ws(#[trigger] s[i]);
                assert(i < p.len());
                assert(!is_ws(p[i]));
            }
        }
    }
}

// ---------------------------------------------------------------------------
// Executable splitting and joining
// ---------------------------------------------------------------------------

/// `n` spaces.
pub fn spaces_exec(n: usize) -> (r: Vec<char>)
    ensures
        r@ == spaces(n as nat),
{
    let mut r: Vec<char> = Vec::new();
    let mut i: usize = 0;
    while i < n
        invariant
            i <= n,
            r@ == spaces(i as nat),
        decreases n - i,
    {
        r.push(' ');
        i += 1;
        assert(r@ =~= spaces(i as nat));
    }
    r
}

/// `v` padded on the right with spaces to at least `w` characters.
pub fn pad_right_exec(v: &Vec<char>, w: usize) -> (r: Vec<char>)
    ensures
        r@ == pad_right(v@, w as nat),
{
    let mut r = sub_chars(v, 0, v.len());
    assert(v@.subrange(0, v.len() as int) =~= v@);
    if v.len() < w {
        let sp = spaces_exec(w - v.len());
        extend_chars(&mut r, &sp);
    }
    r
}

/// The views of a sequence of character vectors.
pub open spec fn views(v: Seq<Vec<char>>) -> Seq<Seq<char>> {
    v.map_values(|w: Vec<char>| w@)
}

/// The whitespace-separated words of `v`.
pub fn words_exec(v: &Vec<char>) -> (r: Vec<Vec<char>>)
    ensures
        views(r@) == words(v@),
{
    let mut done: Vec<Vec<char>> = Vec::new();
    let mut cur: Vec<char> = Vec::new();
    let mut in_word = false;
    let mut i: usize = 0;
    while i < v.len()
        invariant
            i <= v.len(),
            in_word == (i > 0 && !is_ws(v@[i - 1])),
            in_word ==> words(v@.take(i as int)) == views(done@).push(cur@),
            !in_word ==> words(v@.take(i as int)) == views(done@),
        decreases v.len() - i,
    {
        let c = v[i];
        let ghost pre = v@.take(i as int);
        let ghost done0 = views(done@);
        let ghost cur0 = cur@;
        assert(v@.take(i + 1).drop_last() =~= pre);
        assert(v@.take(i + 1).last() == c);
        if is_ws_char(c) {
            if in_word {
                done.push(cur);
                cur = Vec::new();
                assert(views(done@) =~= done0.push(cur0));
            }
            in_word = false;
        } else {
            if in_word {
                cur.push(c);
            } else {
                cur = Vec::new();
                cur.push(c);
                assert(cur@ =~= seq![c]);
            }
            in_word = true;
        }
        i += 1;
        proof {
            if in_word {
                assert(words(v@.take(i as int)) =~= views(done@).push(cur@));
            } else {
                assert(words(v@.take(i as int)) =~= views(done@));
            }
        }
    }
    let ghost done0 = views(done@);
    let ghost cur0 = cur@;
    if in_word {
        done.push(cur);
        assert(views(done@) =~= done0.push(cur0));
    }
    assert(v@.take(v.len() as int) =~= v@);
    done
}

} // verus!

verus! {

/// The pieces of `v` between occurrences of `sep`.
pub fn split_char_exec(v: &Vec<char>, sep: char) -> (r: Vec<Vec<char>>)
    ensures
        views(r@) == split_char(v@, sep),
{
    let mut done: Vec<Vec<char>> = Vec::new();
    let mut cur: Vec<char> = Vec::new();
    let mut i: usize = 0;
    assert(v@.take(0) =~= Seq::<char>::empty());
    assert(views(done@).push(cur@) =~= seq![Seq::<char>::empty()]);
    while i < v.len()
        invariant
            i <= v.len(),
            split_char(v@.take(i as int), sep) == views(done@).push(cur@),
        decreases v.len() - i,
    {
        let c = v[i];
        let ghost done0 = views(done@);
        let ghost cur0 = cur@;
        assert(v@.take(i + 1).drop_last() =~= v@.take(i as int));
        assert(v@.take(i + 1).last() == c);
        if c == sep {
            done.push(cur);
            cur = Vec::new();
            assert(views(done@) =~= done0.push(cur0));
        } else {
            cur.push(c);
        }
        i += 1;
        assert(split_char(v@.take(i as int), sep) =~= views(done@).push(cur@));
    }
    let ghost done0 = views(done@);
    let ghost cur0 = cur@;
    done.push(cur);
    assert(views(done@) =~= done0.push(cur0));
    assert(v@.take(v.len() as int) =~= v@);
    done
}

/// The pieces of `ws` separated by `sep`.
pub fn join_exec(ws: &Vec<Vec<char>>, sep: &Vec<char>) -> (r: Vec<char>)
    ensures
        r@ == join(views(ws@), sep@),
{
    let mut r: Vec<char> = Vec::new();
    let mut i: usize = 0;
    while i < ws.len()
        invariant
            i <= ws.len(),
            r@ == join(views(ws@).take(i as int), sep@),
        decreases ws.len() - i,
    {
        let ghost t = views(ws@).take(i + 1);
        assert(t.drop_last() =~= views(ws@).take(i as int));
        if i > 0 {
            extend_chars(&mut r, sep);
        } else {
            assert(r@ =~= Seq::<char>::empty());
        }
        extend_chars(&mut r, &ws[i]);
        i += 1;
        assert(r@ =~= join(views(ws@).take(i as int), sep@));
    }
    assert(views(ws@).take(ws.len() as int) =~= views(ws@));
    r
}

/// The lines of `text` (`str::lines`).
pub fn lines_of<'a>(text: &'a str) -> (r: Vec<&'a str>)
    ensures
        r@.map_values(|l: &str| l@) == lines(text@),
{
    let v = chars_of(text);
    let mut out: Vec<&'a str> = Vec::new();
    let mut start: usize = 0;
    let mut i: usize = 0;
    assert(v@.take(0) =~= Seq::<char>::empty());
    while i < v.len()
        invariant
            start <= i <= v.len(),
            v@ == text@,
            ({
                let parts = split_char(v@.take(i as int), '\n');
                &&& out.len() + 1 == parts.len()
                &&& forall|k: int|
                    0 <= k < out.len() ==> (#[trigger] out@[k])@ == strip_cr(parts[k])
                &&& parts.last() == v@.subrange(start as int, i as int)
            }),
        decreases v.len() - i,
    {
        let ghost parts0 = split_char(v@.take(i as int), '\n');
        assert(v@.take(i + 1).drop_last() =~= v@.take(i as int));
        assert(v@.take(i + 1).last() == v@[i as int]);
        if v[i] == '\n' {
            let end = if i > start && v[i - 1] == '\r' {
                i - 1
            } else {
                i
            };
            let piece = text.substring_char(start, end);
            assert(piece@ =~= strip_cr(v@.subrange(start as int, i as int)));
            out.push(piece);
            start = i + 1;
            i += 1;
            assert(v@.subrange(start as int, i as int) =~= Seq::<char>::empty());
        } else {
            i += 1;
            assert(v@.subrange(start as int, i as int) =~= v@.subrange(
                start as int,
                i - 1,
            ).push(v@[i - 1]));
        }
    }
    assert(v@.take(v.len() as int) =~= v@);
    let ghost parts = split_char(v@, '\n');
    if start < v.len() {
        let piece = text.substring_char(start, v.len());
        out.push(piece);
    }
    assert(out@.map_values(|l: &str| l@) =~= lines(text@));
    out
}

} // verus!

verus! {

/// The views of a sequence of strings.
pub open spec fn string_views(v: Seq<String>) -> Seq<Seq<char>> {
    v.map_values(|s: String| s@)
}

/// The pieces of `ws` from index `start` on, separated by `sep`.
pub fn join_from_exec(ws: &Vec<Vec<char>>, start: usize, sep: &Vec<char>) -> (r: Vec<char>)
    requires
        start <= ws.len(),
    ensures
        r@ == join(views(ws@).skip(start as int), sep@),
{
    let mut r: Vec<char> = Vec::new();
    let mut i: usize = start;
    let ghost rest = views(ws@).skip(start as int);
    while i < ws.len()
        invariant
            start <= i <= ws.len(),
            rest == views(ws@).skip(start as int),
            r@ == join(rest.take(i - start), sep@),
        decreases ws.len() - i,
    {
        let ghost t = rest.take(i + 1 - start);
        assert(t.drop_last() =~= rest.take(i - start));
        assert(t.last() == ws@[i as int]@);
        if i > start {
            extend_chars(&mut r, sep);
        } else {
            assert(r@ =~= Seq::<char>::empty());
        }
        extend_chars(&mut r, &ws[i]);
        i += 1;
        assert(r@ =~= join(rest.take(i - start), sep@));
    }
    assert(rest.take(ws.len() - start) =~= rest);
    r
}

/// Facts about `trim`: the result is a piece of the input that neither
/// begins nor ends with whitespace.
pub proof fn lemma_trim(s: Seq<char>)
    ensures
        trim(s).len() > 0 ==> !is_ws(trim(s)[0]) && !is_ws(trim(s).last()),
        trim(s).len() <= s.len(),
        all_ws(s) <==> trim(s).len() == 0,
{
    lemma_trim_start(s);
    let t = trim_start(s);
    lemma_trim_end(t);
    if trim(s).len() > 0 {
        assert(trim(s)[0] == t[0]);
    }
    if all_ws(s) && t.len() > 0 {
        assert(t[0] == s[s.len() - t.len()]);
    }
    if !all_ws(s) {
        let i = choose|i: int| 0 <= i < s.len() && !is_ws(#[trigger] s[i]);
        if t.len() > 0 {
            if trim_end(t).len() == 0 {
                assert(all_ws(t));
                assert(is_ws(t[0]));
            }
        } else {
            assert(i < s.len() - t.len());
        }
    }
}

proof fn lemma_trim_start(s: Seq<char>)
    ensures
        trim_start(s).len() <= s.len(),
        trim_start(s) == s.skip(s.len() - trim_start(s).len()),
        trim_start(s).len() > 0 ==> !is_ws(trim_start(s)[0]),
        forall|i: int| 0 <= i < s.len() - trim_start(s).len() ==> is_ws(#[trigger] s[i]),
    decreases s.len(),
{
    if s.len() > 0 && is_ws(s[0]) {
        lemma_trim_start(s.drop_first());
        assert(s.drop_first().skip(s.len() - 1 - trim_start(s).len()) =~= s.skip(
            s.len() - trim_start(s).len(),
        ));
        assert forall|i: int| 0 <= i < s.len() - trim_start(s).len() implies is_ws(
            #[trigger] s[i],
        ) by {
            if i > 0 {
                assert(s[i] == s.drop_first()[i - 1]);
            }
        }
    } else {
        assert(s.skip(0) =~= s);
    }
}

proof fn lemma_trim_end(s: Seq<char>)
    ensures
        trim_end(s).len() <= s.len(),
        trim_end(s) == s.take(trim_end(s).len() as int),
        trim_end(s).len() > 0 ==> !is_ws(trim_end(s).last()),
        forall|i: int| trim_end(s).len() <= i < s.len() ==> is_ws(#[trigger] s[i]),
        trim_end(s).len() == 0 ==> all_ws(s),
    decreases s.len(),
{
    if s.len() > 0 && is_ws(s.last()) {
        lemma_trim_end(s.drop_last());
        assert(s.drop_last().take(trim_end(s).len() as int) =~= s.take(
            trim_end(s).len() as int,
        ));
        assert forall|i: int| trim_end(s).len() <= i < s.len() implies is_ws(#[trigger] s[i]) by {
            if i < s.len() - 1 {
                assert(s[i] == s.drop_last()[i]);
            }
        }
    } else {
        assert(s.take(s.len() as int) =~= s);
    }
    if trim_end(s).len() == 0 {
        assert forall|i: int| 0 <= i < s.len() implies is_ws(#[trigger] s[i]) by {}
    }
}

} // verus!

verus! {

/// What `find_char_from` returns: the first matching index, or none.
pub proof fn lemma_find_char_from(s: Seq<char>, c: char, from: nat)
    ensures
        match find_char_from(s, c, from) {
            Some(k) => from <= k < s.len() && s[k as int] == c && forall|j: int|
                from <= j < k ==> s[j] != c,
            None => forall|j: int| from <= j < s.len() ==> s[j] != c,
        },
    decreases s.len() - from,
{
    if from < s.len() && s[from as int] != c {
        lemma_find_char_from(s, c, from + 1);
    }
}

/// What `find_char` returns: the first matching index, or none.
pub proof fn lemma_find_char(s: Seq<char>, c: char)
    ensures
        match find_char(s, c) {
            Some(k) => k < s.len() && s[k as int] == c && forall|j: int| 0 <= j < k ==> s[j] != c,
            None => !contains_char(s, c),
        },
{
    lemma_find_char_from(s, c, 0);
}

/// What `find_str_from` returns: the first occurrence, or none.
pub proof fn lemma_find_str_from(s: Seq<char>, p: Seq<char>, from: nat)
    ensures
        match find_str_from(s, p, from) {
            Some(k) => from <= k && occurs_at(s, p, k as int) && forall|j: int|
                from <= j < k ==> !occurs_at(s, p, j),
            None => forall|j: int| from <= j ==> !occurs_at(s, p, j),
        },
    decreases s.len() + 1 - from,
{
    if from + p.len() <= s.len() && !occurs_at(s, p, from as int) {
        lemma_find_str_from(s, p, from + 1);
    }
}

/// What `find_str` returns: the first occurrence, or none.
pub proof fn lemma_find_str(s: Seq<char>, p: Seq<char>)
    ensures
        match find_str(s, p) {
            Some(k) => occurs_at(s, p, k as int) && k + p.len() <= s.len(),
            None => !contains_str(s, p),
        },
{
    lemma_find_str_from(s, p, 0);
}

} // verus!

verus! {

/// The views of a sequence of string slices.
pub open spec fn str_views(v: Seq<&str>) -> Seq<Seq<char>> {
    v.map_values(|s: &str| s@)
}

} // verus!

verus! {

/// Whether `s` and `t` hold the same characters.
pub fn eq_str(s: &str, t: &str) -> (r: bool)
    ensures
        r == (s@ == t@),
{
    let a = chars_of(s);
    let b = chars_of(t);
    if a.len() != b.len() {
        return false;
    }
    let mut i: usize = 0;
    while i < a.len()
        invariant
            i <= a.len() == b.len(),
            a@ == s@,
            b@ == t@,
            forall|j: int| 0 <= j < i ==> a@[j] == b@[j],
        decreases a.len() - i,
    {
        if a[i] != b[i] {
            assert(a@[i as int] != b@[i as int]);
            return false;
        }
        i += 1;
    }
    assert(a@ =~= b@);
    true
}

/// Whether `s` begins with the character `c`.
pub fn starts_with_char(s: &str, c: char) -> (r: bool)
    ensures
        r == starts_with(s@, seq![c]),
{
    let v = chars_of(s);
    if v.len() > 0 && v[0] == c {
        assert(v@.subrange(0, 1) =~= seq![c]);
        true
    } else {
        if v.len() > 0 {
            assert(v@.subrange(0, 1)[0] != seq![c][0]);
        }
        false
    }
}

} // verus!

verus! {

// ---------------------------------------------------------------------------
// Numbers
// ---------------------------------------------------------------------------

/// The digit for `d` (0 to 15): `0`-`9`, then `A`-`F`.
pub open spec fn digit_char(d: nat) -> char {
    if d < 10 {
        ((48 + d) as u8) as char
    } else {
        ((55 + d) as u8) as char
    }
}

/// `n` in decimal (`format!("{}", n)`).
pub open spec fn decimal(n: nat) -> Seq<char>
    decreases n,
{
    if n < 10 {
        seq![digit_char(n)]
    } else {
        decimal(n / 10).push(digit_char(n % 10))
    }
}

/// `n` in upper-case hexadecimal (`format!("{:X}", n)`).
pub open spec fn hex(n: nat) -> Seq<char>
    decreases n,
{
    if n < 16 {
        seq![digit_char(n)]
    } else {
        hex(n / 16).push(digit_char(n % 16))
    }
}

/// `s` padded on the left with zeros to at least `w` characters.
pub open spec fn zero_pad(s: Seq<char>, w: nat) -> Seq<char> {
    if s.len() < w {
        Seq::new((w - s.len()) as nat, |i: int| '0') + s
    } else {
        s
    }
}

/// `n` in upper-case hexadecimal, zero-padded to `w` digits
/// (`format!("{:0w$X}", n)`).
pub open spec fn hex_padded(n: nat, w: nat) -> Seq<char> {
    zero_pad(hex(n), w)
}

fn digit_exec(d: u64) -> (c: char)
    requires
        d < 16,
    ensures
        c == digit_char(d as nat),
{
    if d < 10 {
        ((48 + d) as u8) as char
    } else {
        ((55 + d) as u8) as char
    }
}

/// `n` in decimal.
pub fn decimal_exec(n: u64) -> (r: Vec<char>)
    ensures
        r@ == decimal(n as nat),
    decreases n,
{
    if n < 10 {
        let r = vec![digit_exec(n)];
        assert(r@ =~= seq![digit_char(n as nat)]);
        r
    } else {
        let mut r = decimal_exec(n / 10);
        r.push(digit_exec(n % 10));
        r
    }
}

/// `n` in upper-case hexadecimal.
pub fn hex_exec(n: u64) -> (r: Vec<char>)
    ensures
        r@ == hex(n as nat),
    decreases n,
{
    if n < 16 {
        let r = vec![digit_exec(n)];
        assert(r@ =~= seq![digit_char(n as nat)]);
        r
    } else {
        let mut r = hex_exec(n / 16);
        r.push(digit_exec(n % 16));
        r
    }
}

/// `n` in upper-case hexadecimal, zero-padded to `w` digits.
pub fn hex_padded_exec(n: u64, w: usize) -> (r: Vec<char>)
    ensures
        r@ == hex_padded(n as nat, w as nat),
{
    let h = hex_exec(n);
    if h.len() < w {
        let mut r: Vec<char> = Vec::new();
        let mut i: usize = 0;
        while i < w - h.len()
            invariant
                h.len() < w,
                i <= w - h.len(),
                r@ == Seq::new(i as nat, |j: int| '0'),
            decreases w - h.len() - i,
        {
            r.push('0');
            i += 1;
            assert(r@ =~= Seq::new(i as nat, |j: int| '0'));
        }
        extend_chars(&mut r, &h);
        r
    } else {
        h
    }
}

} // verus!

verus! {

/// `s` with every occurrence of `pat` replaced by `rep`, left to right and
/// without overlaps (`str::replace` with a non-empty pattern).
pub open spec fn replace_all(s: Seq<char>, pat: Seq<char>, rep: Seq<char>) -> Seq<char>
    decreases s.len(),
{
    if pat.len() == 0 {
        s
    } else {
        match find_str(s, pat) {
            None => s,
            Some(k) => {
                proof {
                    lemma_find_str(s, pat);
                }
                s.take(k as int) + rep + replace_all(s.skip((k + pat.len()) as int), pat, rep)
            },
        }
    }
}

/// `replace_all` on characters.
pub fn replace_all_exec(s: &Vec<char>, pat: &Vec<char>, rep: &Vec<char>) -> (r: Vec<char>)
    requires
        pat.len() > 0,
    ensures
        r@ == replace_all(s@, pat@, rep@),
{
    let mut out: Vec<char> = Vec::new();
    let mut rest = sub_chars(s, 0, s.len());
    assert(s@.subrange(0, s.len() as int) =~= s@);
    loop
        invariant
            pat.len() > 0,
            replace_all(s@, pat@, rep@) == out@ + replace_all(rest@, pat@, rep@),
        decreases rest.len(),
    {
        match find_str_in(&rest, pat) {
            None => {
                extend_chars(&mut out, &rest);
                return out;
            },
            Some(k) => {
                proof {
                    lemma_find_str(rest@, pat@);
                }
                let before = sub_chars(&rest, 0, k);
                assert(before@ =~= rest@.take(k as int));
                extend_chars(&mut out, &before);
                extend_chars(&mut out, rep);
                let after = sub_chars(&rest, k + pat.len(), rest.len());
                assert(after@ =~= rest@.skip((k + pat.len()) as int));
                rest = after;
            },
        }
    }
}

} // verus!

verus! {

/// `10^k`.
pub open spec fn pow10(k: nat) -> nat
    decreases k,
{
    if k == 0 {
        1
    } else {
        10 * pow10((k - 1) as nat)
    }
}

/// `16^k`.
pub open spec fn pow16(k: nat) -> nat
    decreases k,
{
    if k == 0 {
        1
    } else {
        16 * pow16((k - 1) as nat)
    }
}

/// A number below `10^k` has at most `k` decimal digits.
pub proof fn lemma_decimal_len(n: nat, k: nat)
    requires
        k >= 1,
        n < pow10(k),
    ensures
        1 <= decimal(n).len() <= k,
    decreases n,
{
    if n >= 10 {
        let p = pow10((k - 1) as nat);
        assert(k >= 2) by {
            if k == 1 {
                assert(pow10(0) == 1);
            }
        }
        assert(n / 10 < p) by (nonlinear_arith)
            requires
                n < 10 * p,
        ;
        lemma_decimal_len(n / 10, (k - 1) as nat);
    }
}

/// A number below `16^k` has at most `k` hexadecimal digits.
pub proof fn lemma_hex_len(n: nat, k: nat)
    requires
        k >= 1,
        n < pow16(k),
    ensures
        1 <= hex(n).len() <= k,
    decreases n,
{
    if n >= 16 {
        let p = pow16((k - 1) as nat);
        assert(k >= 2) by {
            if k == 1 {
                assert(pow16(0) == 1);
            }
        }
        assert(n / 16 < p) by (nonlinear_arith)
            requires
                n < 16 * p,
        ;
        lemma_hex_len(n / 16, (k - 1) as nat);
    }
}

/// Bounds on the decimal and hexadecimal forms of fixed-width integers.
pub proof fn lemma_digit_bounds(n: nat)
    ensures
        n <= u64::MAX ==> decimal(n).len() <= 20,
        n <= u16::MAX ==> decimal(n).len() <= 5,
        n <= u16::MAX ==> hex(n).len() <= 4,
        n <= u16::MAX ==> hex_padded(n, 4).len() == 4,
        n <= u16::MAX ==> 2 <= hex_padded(n, 2).len() <= 4,
{
    reveal_with_fuel(pow10, 21);
    reveal_with_fuel(pow16, 5);
    if n <= u64::MAX {
        lemma_decimal_len(n, 20);
    }
    if n <= u16::MAX {
        lemma_decimal_len(n, 5);
        lemma_hex_len(n, 4);
    }
}

/// The UTF-8 length of a concatenation is the sum of the lengths.
pub proof fn lemma_byte_len_concat(a: Seq<char>, b: Seq<char>)
    ensures
        byte_len(a + b) == byte_len(a) + byte_len(b),
    decreases a.len(),
{
    if a.len() == 0 {
        assert(a + b =~= b);
    } else {
        assert((a + b).drop_first() =~= a.drop_first() + b);
        lemma_byte_len_concat(a.drop_first(), b);
    }
}

/// An ASCII text is as long in bytes as in characters.
pub proof fn lemma_byte_len_ascii(s: Seq<char>)
    requires
        vstd::utf8::is_ascii_chars(s),
    ensures
        byte_len(s) == s.len(),
{
    vstd::utf8::is_ascii_chars_encode_utf8(s);
}

} // verus!

verus! {

/// Whether no character of `w` is whitespace.
pub open spec fn no_ws(w: Seq<char>) -> bool {
    forall|i: int| 0 <= i < w.len() ==> !is_ws(#[trigger] w[i])
}

/// Splitting at whitespace distributes over a concatenation that is cut
/// at whitespace (or at either end).
pub proof fn lemma_words_concat(a: Seq<char>, b: Seq<char>)
    requires
        a.len() == 0 || b.len() == 0 || is_ws(a.last()) || is_ws(b[0]),
    ensures
        words(a + b) == words(a) + words(b),
    decreases b.len(),
{
    if b.len() == 0 {
        assert(a + b =~= a);
        assert(words(a) + words(b) =~= words(a));
    } else {
        let bd = b.drop_last();
        let c = b.last();
        assert((a + b).drop_last() =~= a + bd);
        assert((a + b).last() == c);
        if bd.len() > 0 {
            assert(bd[0] == b[0]);
        }
        lemma_words_concat(a, bd);
        let p = a + bd;
        let wa = words(a);
        let wb = words(bd);
        if is_ws(c) {
        } else if p.len() > 0 && !is_ws(p.last()) {
            assert(bd.len() > 0);
            assert(p.last() == bd.last());
            lemma_words_empty(bd);
            assert(words(a + b) =~= words(a) + words(b));
        } else {
            if bd.len() > 0 {
                assert(p.last() == bd.last());
            }
            assert(words(a + b) =~= words(a) + words(b));
        }
    }
}

/// A non-empty text without whitespace is one word.
pub proof fn lemma_words_word(w: Seq<char>)
    requires
        w.len() > 0,
        no_ws(w),
    ensures
        words(w) == seq![w],
    decreases w.len(),
{
    let p = w.drop_last();
    if p.len() > 0 {
        lemma_words_word(p);
        assert(words(w) =~= seq![p.push(w.last())]);
        assert(p.push(w.last()) =~= w);
    } else {
        assert(words(p) =~= Seq::<Seq<char>>::empty());
        assert(seq![w.last()] =~= w);
    }
}

/// Whitespace alone has no words.
pub proof fn lemma_words_of_ws(s: Seq<char>)
    requires
        all_ws(s),
    ensures
        words(s) == Seq::<Seq<char>>::empty(),
{
    lemma_words_empty(s);
}

} // verus!

verus! {

/// A text is its leading whitespace, its trimmed part and its trailing
/// whitespace, in this order.
pub proof fn lemma_trim_parts(s: Seq<char>)
    ensures
        trim_start(s).len() <= s.len(),
        s.len() - trim_start(s).len() + trim(s).len() <= s.len(),
        all_ws(s.take(s.len() - trim_start(s).len())),
        all_ws(s.skip(s.len() - trim_start(s).len() + trim(s).len())),
        s == s.take(s.len() - trim_start(s).len()) + trim(s) + s.skip(
            s.len() - trim_start(s).len() + trim(s).len(),
        ),
{
    lemma_trim_start(s);
    let t = trim_start(s);
    lemma_trim_end(t);
    let lead = s.len() - t.len();
    let e = trim(s);
    assert(t =~= s.skip(lead));
    assert(e =~= t.take(e.len() as int));
    let w1 = s.take(lead);
    let w2 = s.skip(lead + e.len());
    assert forall|i: int| 0 <= i < w1.len() implies is_ws(#[trigger] w1[i]) by {
        assert(w1[i] == s[i]);
    }
    assert forall|i: int| 0 <= i < w2.len() implies is_ws(#[trigger] w2[i]) by {
        assert(w2[i] == t[e.len() + i]);
    }
    assert(s =~= w1 + e + w2);
}

} // verus!

verus! {

/// Trimming keeps the words.
pub proof fn lemma_words_trim(s: Seq<char>)
    ensures
        words(trim(s)) == words(s),
{
    lemma_trim_parts(s);
    let w1 = s.take(s.len() - trim_start(s).len());
    let e = trim(s);
    let w2 = s.skip(s.len() - trim_start(s).len() + e.len());
    lemma_words_of_ws(w1);
    lemma_words_of_ws(w2);
    if w2.len() > 0 {
        assert(is_ws(w2[0]));
    }
    lemma_words_concat(e, w2);
    if w1.len() > 0 {
        assert(is_ws(w1.last()));
    }
    lemma_words_concat(w1, e + w2);
    assert(s =~= w1 + (e + w2));
    assert(words(s) =~= words(e));
}

/// A join of two or more pieces is the first, the separator and the join
/// of the rest.
pub proof fn lemma_join_first(ws: Seq<Seq<char>>, sep: Seq<char>)
    requires
        ws.len() >= 2,
    ensures
        join(ws, sep) == ws[0] + sep + join(ws.skip(1), sep),
    decreases ws.len(),
{
    if ws.len() == 2 {
        assert(ws.drop_last().len() == 1);
        assert(join(ws.drop_last(), sep) == ws[0]);
        assert(ws.skip(1) =~= seq![ws[1]]);
        assert(join(ws.skip(1), sep) == ws[1]);
    } else {
        let d = ws.drop_last();
        lemma_join_first(d, sep);
        assert(d.skip(1) =~= ws.skip(1).drop_last());
        assert(ws.skip(1).last() == ws.last());
        assert(d[0] == ws[0]);
        assert(join(ws.skip(1), sep) == join(ws.skip(1).drop_last(), sep) + sep + ws.skip(1).last());
        assert(join(ws, sep) == join(d, sep) + sep + ws.last());
        assert(join(ws, sep) =~= ws[0] + sep + join(ws.skip(1), sep));
    }
}

/// A trimmed text whose only whitespace is spaces: with a space in it, it
/// has two words or more.
pub proof fn lemma_two_words(t: Seq<char>, j: int)
    requires
        t == trim(t),
        0 <= j < t.len(),
        is_ws(t[j]),
    ensures
        words(t).len() >= 2,
{
    lemma_trim(t);
    let a = t.take(j);
    let b = t.skip(j);
    assert(t =~= a + b);
    assert(b[0] == t[j]);
    lemma_words_concat(a, b);
    assert(j > 0);
    assert(!all_ws(a)) by {
        assert(a[0] == t[0]);
    }
    assert(!all_ws(b)) by {
        assert(b[b.len() - 1] == t.last());
    }
    lemma_words_empty(a);
    lemma_words_empty(b);
}

} // verus!

verus! {

/// Every character of the trimmed text is a character of the text.
pub proof fn lemma_trim_chars(s: Seq<char>)
    ensures
        forall|i: int|
            0 <= i < trim(s).len() ==> exists|j: int| 0 <= j < s.len() && s[j] == #[trigger] trim(s)[i],
{
    lemma_trim_parts(s);
    let w1 = s.take(s.len() - trim_start(s).len());
    assert forall|i: int| 0 <= i < trim(s).len() implies exists|j: int|
        0 <= j < s.len() && s[j] == #[trigger] trim(s)[i] by {
        assert(s[w1.len() + i] == trim(s)[i]);
    }
}

/// Trimming twice is trimming once.
pub proof fn lemma_trim_twice(s: Seq<char>)
    ensures
        trim(trim(s)) == trim(s),
{
    let e = trim(s);
    lemma_trim(s);
    if e.len() > 0 {
        assert(trim_start(e) == e);
        assert(trim_end(e) == e);
    } else {
        assert(trim_start(e) == e);
        assert(trim_end(e) == e);
    }
}

} // verus!

verus! {

/// Whether `c` does not occur in `s`.
pub open spec fn lacks(s: Seq<char>, c: char) -> bool {
    forall|i: int| 0 <= i < s.len() ==> s[i] != c
}

/// Whether `c` occurs in none of `ls`.
pub open spec fn all_lack(ls: Seq<Seq<char>>, c: char) -> bool {
    forall|k: int| 0 <= k < ls.len() ==> lacks(#[trigger] ls[k], c)
}

pub proof fn lemma_trim_lacks(s: Seq<char>, c: char)
    requires
        lacks(s, c),
    ensures
        lacks(trim(s), c),
{
    lemma_trim_chars(s);
    assert forall|i: int| 0 <= i < trim(s).len() implies trim(s)[i] != c by {
        let j = choose|j: int| 0 <= j < s.len() && s[j] == #[trigger] trim(s)[i];
    }
}

pub proof fn lemma_words_lack(s: Seq<char>, c: char)
    requires
        lacks(s, c),
    ensures
        all_lack(words(s), c),
    decreases s.len(),
{
    if s.len() > 0 {
        let p = s.drop_last();
        lemma_words_lack(p, c);
        let w = words(p);
        assert(s.last() == s[s.len() - 1]);
        assert(s.last() != c);
        assert forall|k: int| 0 <= k < words(s).len() implies lacks(#[trigger] words(s)[k], c) by {
            if k < w.len() {
                assert(lacks(w[k], c));
            }
            if is_ws(s.last()) {
            } else if p.len() > 0 && !is_ws(p.last()) {
                lemma_words_empty(p);
                if k == w.len() - 1 {
                    assert(words(s)[k] == w[k].push(s.last()));
                    assert(lacks(w[k], c));
                }
            } else if k == w.len() {
                assert(words(s)[k] == seq![s.last()]);
            }
        }
    }
}

pub proof fn lemma_split_lacks(s: Seq<char>, sep: char, c: char)
    requires
        c == sep || lacks(s, c),
    ensures
        all_lack(split_char(s, sep), c),
    decreases s.len(),
{
    if s.len() > 0 {
        let p = s.drop_last();
        lemma_split_lacks(p, sep, c);
        lemma_split_char_nonempty(p, sep);
        let w = split_char(p, sep);
        assert forall|k: int| 0 <= k < split_char(s, sep).len() implies lacks(
            #[trigger] split_char(s, sep)[k],
            c,
        ) by {
            if k < w.len() {
                assert(lacks(w[k], c));
            }
        }
    }
}

pub proof fn lemma_join_lacks(ws: Seq<Seq<char>>, sep: Seq<char>, c: char)
    requires
        all_lack(ws, c),
        lacks(sep, c),
    ensures
        lacks(join(ws, sep), c),
    decreases ws.len(),
{
    if ws.len() > 1 {
        lemma_join_lacks(ws.drop_last(), sep, c);
        assert(lacks(ws.last(), c));
    } else if ws.len() == 1 {
        assert(lacks(ws[0], c));
    }
}

/// No line of a text holds a line ending.
pub proof fn lemma_lines_lack_newline(s: Seq<char>)
    ensures
        all_lack(lines(s), '\n'),
{
    lemma_split_lacks(s, '\n', '\n');
    lemma_split_char_nonempty(s, '\n');
    let parts = split_char(s, '\n');
    let ls = lines(s);
    assert forall|k: int| 0 <= k < ls.len() implies lacks(#[trigger] ls[k], '\n') by {
        assert(lacks(parts[k], '\n'));
        if k < parts.len() - 1 {
            assert(ls[k] == strip_cr(parts[k]));
        } else {
            assert(ls[k] == parts[k]);
        }
    }
}

} // verus!

verus! {

/// Every word is non-empty and holds no whitespace.
pub proof fn lemma_words_parts(s: Seq<char>)
    ensures
        forall|k: int|
            0 <= k < words(s).len() ==> (#[trigger] words(s)[k]).len() > 0 && no_ws(words(s)[k]),
    decreases s.len(),
{
    if s.len() > 0 {
        let p = s.drop_last();
        lemma_words_parts(p);
        let w = words(p);
        assert forall|k: int| 0 <= k < words(s).len() implies (#[trigger] words(s)[k]).len() > 0
            && no_ws(words(s)[k]) by {
            if k < w.len() {
                assert(w[k].len() > 0 && no_ws(w[k]));
            }
            if is_ws(s.last()) {
            } else if p.len() > 0 && !is_ws(p.last()) {
                lemma_words_empty(p);
                if k == w.len() - 1 {
                    assert(words(s)[k] == w[k].push(s.last()));
                    assert(no_ws(w[k]));
                    assert forall|i: int| 0 <= i < words(s)[k].len() implies !is_ws(
                        #[trigger] words(s)[k][i],
                    ) by {
                        if i < w[k].len() {
                            assert(words(s)[k][i] == w[k][i]);
                        }
                    }
                }
            } else if k == w.len() {
                assert(words(s)[k] == seq![s.last()]);
            }
        }
    }
}

/// Joining non-empty words with single spaces and splitting at whitespace
/// gives the words back.
pub proof fn lemma_words_join(ws: Seq<Seq<char>>)
    requires
        forall|k: int| 0 <= k < ws.len() ==> (#[trigger] ws[k]).len() > 0 && no_ws(ws[k]),
    ensures
        words(join(ws, seq![' '])) == ws,
    decreases ws.len(),
{
    if ws.len() == 0 {
        assert(words(Seq::<char>::empty()) =~= Seq::<Seq<char>>::empty());
    } else if ws.len() == 1 {
        assert(ws[0].len() > 0 && no_ws(ws[0]));
        lemma_words_word(ws[0]);
        assert(ws =~= seq![ws[0]]);
    } else {
        let d = ws.drop_last();
        let x = ws.last();
        assert(x == ws[ws.len() - 1]);
        assert(x.len() > 0 && no_ws(x));
        lemma_words_join(d);
        lemma_words_word(x);
        lemma_words_of_ws(seq![' ']);
        lemma_words_concat(seq![' '], x);
        lemma_words_concat(join(d, seq![' ']), seq![' '] + x);
        assert(join(ws, seq![' ']) =~= join(d, seq![' ']) + (seq![' '] + x));
        assert(words(join(ws, seq![' '])) =~= ws);
    }
}

/// Whitespace added at the end is trimmed away.
pub proof fn lemma_trim_end_append_ws(a: Seq<char>, w: Seq<char>)
    requires
        all_ws(w),
    ensures
        trim_end(a + w) == trim_end(a),
    decreases w.len(),
{
    if w.len() == 0 {
        assert(a + w =~= a);
    } else {
        assert(is_ws(w[w.len() - 1]));
        assert((a + w).drop_last() =~= a + w.drop_last());
        assert(all_ws(w.drop_last())) by {
            assert forall|i: int| 0 <= i < w.drop_last().len() implies is_ws(
                #[trigger] w.drop_last()[i],
            ) by {
                assert(w.drop_last()[i] == w[i]);
            }
        }
        lemma_trim_end_append_ws(a, w.drop_last());
    }
}

/// A text that begins and ends with something other than whitespace is
/// its own trim.
pub proof fn lemma_trim_of_trimmed(s: Seq<char>)
    requires
        s.len() == 0 || (!is_ws(s[0]) && !is_ws(s.last())),
    ensures
        trim(s) == s,
{
    assert(trim_start(s) == s);
    assert(trim_end(s) == s);
}

} // verus!

verus! {

/// A text holds whatever stands in it between two pieces.
pub proof fn lemma_contains_middle(pre: Seq<char>, t: Seq<char>, post: Seq<char>)
    ensures
        contains_str(pre + t + post, t),
{
    let s = pre + t + post;
    assert(s.subrange(pre.len() as int, (pre.len() + t.len()) as int) =~= t);
    assert(occurs_at(s, t, pre.len() as int));
}

} // verus!

verus! {

/// Trimming keeps every occurrence of a text without whitespace.
pub proof fn lemma_contains_trim(x: Seq<char>, p: Seq<char>)
    requires
        p.len() > 0,
        no_ws(p),
    ensures
        contains_str(trim(x), p) == contains_str(x, p),
{
    lemma_trim_parts(x);
    let lead = x.len() - trim_start(x).len();
    let e = trim(x);
    let w1 = x.take(lead);
    let w2 = x.skip(lead + e.len());
    assert(x == w1 + e + w2);
    if contains_str(e, p) {
        let i = choose|i: int| occurs_at(e, p, i);
        assert(x.subrange(lead + i, lead + i + p.len()) =~= e.subrange(i, i + p.len()));
        assert(occurs_at(x, p, lead + i));
    }
    if contains_str(x, p) {
        let i = choose|i: int| occurs_at(x, p, i);
        assert(x.subrange(i, i + p.len())[0] == x[i]);
        assert(!is_ws(p[0]));
        if i < lead {
            assert(x[i] == w1[i]);
        }
        let last = i + p.len() - 1;
        assert(x.subrange(i, i + p.len())[p.len() - 1] == x[last]);
        assert(!is_ws(p[p.len() - 1]));
        if last >= lead + e.len() {
            assert(x[last] == w2[last - lead - e.len()]);
        }
        assert(e.subrange(i - lead, i - lead + p.len()) =~= x.subrange(i, i + p.len()));
        assert(occurs_at(e, p, i - lead));
    }
}

/// Trimming keeps every occurrence of a character that is not whitespace.
pub proof fn lemma_contains_char_trim(x: Seq<char>, c: char)
    requires
        !is_ws(c),
    ensures
        contains_char(trim(x), c) == contains_char(x, c),
{
    lemma_trim_parts(x);
    let lead = x.len() - trim_start(x).len();
    let e = trim(x);
    let w1 = x.take(lead);
    let w2 = x.skip(lead + e.len());
    assert(x == w1 + e + w2);
    if contains_char(e, c) {
        let i = choose|i: int| 0 <= i < e.len() && e[i] == c;
        assert(x[lead + i] == e[i]);
    }
    if contains_char(x, c) {
        let i = choose|i: int| 0 <= i < x.len() && x[i] == c;
        if i < lead {
            assert(x[i] == w1[i]);
        } else if i >= lead + e.len() {
            assert(x[i] == w2[i - lead - e.len()]);
        } else {
            assert(e[i - lead] == x[i]);
        }
    }
}

} // verus!
