//! Addresses typed at the debugger prompt: decimal, or hexadecimal after
//! `0x` / `0X`.

use vstd::prelude::*;
use crate::text::{chars_of, decimal, digit_char, hex, starts_with};
use crate::error::{is_usage_error, usage_error, AsmodeusError};

verus! {

/// The value of the digit `c` in base `radix` (`char::to_digit`).
pub open spec fn digit_value(c: char, radix: nat) -> Option<nat> {
    let n = c as u32;
    let d: int = if '0' as u32 <= n <= '9' as u32 {
        n - '0' as u32
    } else if 'a' as u32 <= n <= 'z' as u32 {
        n - 'a' as u32 + 10
    } else if 'A' as u32 <= n <= 'Z' as u32 {
        n - 'A' as u32 + 10
    } else {
        radix as int
    };
    if d < radix {
        Some(d as nat)
    } else {
        None
    }
}

/// The number that the digits `s` spell in base `radix`, if all are digits.
pub open spec fn digits_value(s: Seq<char>, radix: nat) -> Option<nat>
    decreases s.len(),
{
    if s.len() == 0 {
        Some(0)
    } else {
        match (digits_value(s.drop_last(), radix), digit_value(s.last(), radix)) {
            (Some(a), Some(d)) => Some(a * radix + d),
            _ => None,
        }
    }
}

/// What `u16::from_str_radix(s, radix)` accepts: an optional `+`, then at
/// least one digit, spelling a number that fits in 16 bits.
pub open spec fn parse_u16(s: Seq<char>, radix: nat) -> Option<u16> {
    let body = if s.len() > 0 && s[0] == '+' {
        s.drop_first()
    } else {
        s
    };
    if body.len() == 0 {
        None
    } else {
        match digits_value(body, radix) {
            Some(v) => if v <= 0xffff {
                Some(v as u16)
            } else {
                None
            },
            None => None,
        }
    }
}

/// Whether `s` starts with the hexadecimal prefix `0x` or `0X`.
pub open spec fn has_hex_prefix(s: Seq<char>) -> bool {
    starts_with(s, seq!['0', 'x']) || starts_with(s, seq!['0', 'X'])
}

/// The address that `s` denotes: hexadecimal after `0x`/`0X`, else decimal.
pub open spec fn address_value(s: Seq<char>) -> Option<u16> {
    if has_hex_prefix(s) {
        parse_u16(s.skip(2), 16)
    } else {
        parse_u16(s, 10)
    }
}

/// `digit_value` on a character.
fn digit_of(c: char, radix: u32) -> (r: Option<u32>)
    requires
        radix == 10 || radix == 16,
    ensures
        match r {
            Some(d) => digit_value(c, radix as nat) == Some(d as nat),
            None => digit_value(c, radix as nat) is None,
        },
{
    let n = c as u32;
    let d: u32 = if '0' as u32 <= n && n <= '9' as u32 {
        n - '0' as u32
    } else if 'a' as u32 <= n && n <= 'z' as u32 {
        n - 'a' as u32 + 10
    } else if 'A' as u32 <= n && n <= 'Z' as u32 {
        n - 'A' as u32 + 10
    } else {
        radix
    };
    if d < radix {
        Some(d)
    } else {
        None
    }
}

/// `parse_u16` on characters `v[from..]`.
fn parse_u16_chars(v: &Vec<char>, from: usize, radix: u32) -> (r: Option<u16>)
    requires
        from <= v.len(),
        radix == 10 || radix == 16,
    ensures
        r == parse_u16(v@.skip(from as int), radix as nat),
{
    let ghost s = v@.skip(from as int);
    let mut start = from;
    if start < v.len() && v[start] == '+' {
        start += 1;
    }
    let ghost body = v@.skip(start as int);
    assert(body =~= (if s.len() > 0 && s[0] == '+' {
        s.drop_first()
    } else {
        s
    }));
    if start == v.len() {
        return None;
    }
    let mut i = start;
    let mut valid = true;
    let mut acc: u32 = 0;
    assert(v@.subrange(start as int, start as int) =~= Seq::<char>::empty());
    while i < v.len()
        invariant
            start <= i <= v.len(),
            radix == 10 || radix == 16,
            valid <==> digits_value(v@.subrange(start as int, i as int), radix as nat) is Some,
            valid ==> acc <= 0x10000,
            valid ==> ({
                let val = digits_value(v@.subrange(start as int, i as int), radix as nat)->0;
                (val <= 0xffff ==> acc == val) && (val > 0xffff ==> acc == 0x10000)
            }),
        decreases v.len() - i,
    {
        let ghost pre = v@.subrange(start as int, i as int);
        let ghost cur = v@.subrange(start as int, i + 1);
        assert(cur.drop_last() =~= pre);
        assert(cur.last() == v@[i as int]);
        match digit_of(v[i], radix) {
            Some(d) => {
                if valid {
                    let ghost val = digits_value(pre, radix as nat)->0;
                    if acc >= 0x10000 {
                        assert(val * radix + d >= 0x10000) by (nonlinear_arith)
                            requires
                                val > 0xffff,
                                radix >= 10,
                        ;
                    } else {
                        assert(acc * radix + d <= 0xffff * 16 + 15) by (nonlinear_arith)
                            requires
                                acc <= 0xffff,
                                radix <= 16,
                                d < 16,
                        ;
                        let next = acc * radix + d;
                        acc = if next > 0xffff {
                            0x10000
                        } else {
                            next
                        };
                    }
                }
            },
            None => {
                valid = false;
            },
        }
        i += 1;
    }
    assert(v@.subrange(start as int, v.len() as int) =~= body);
    if valid && acc <= 0xffff {
        Some(acc as u16)
    } else {
        None
    }
}

/// What reading the address `s` gives: its value, or the usage error that
/// names it as an invalid hexadecimal or decimal address.
pub open spec fn address_outcome(s: Seq<char>, r: Result<u16, AsmodeusError>) -> bool {
    match r {
        Ok(a) => address_value(s) == Some(a),
        Err(e) => address_value(s) is None && if has_hex_prefix(s) {
            is_usage_error(e, "Invalid hexadecimal address: "@ + s)
        } else {
            is_usage_error(e, "Invalid decimal address: "@ + s)
        },
    }
}

/// Reads a debugger address: hexadecimal after `0x` or `0X`, decimal
/// otherwise, each with an optional `+`, within 0..=65535.
pub fn parse_address(addr_str: &str) -> (r: Result<u16, AsmodeusError>)
    ensures
        address_outcome(addr_str@, r),
{
    let v = chars_of(addr_str);
    let hex = v.len() >= 2 && v[0] == '0' && (v[1] == 'x' || v[1] == 'X');
    assert(hex == has_hex_prefix(v@)) by {
        if v.len() >= 2 {
            assert(v@.subrange(0, 2) =~= seq![v@[0], v@[1]]);
        }
    }
    if hex {
        match parse_u16_chars(&v, 2, 16) {
            Some(a) => Ok(a),
            None => Err(usage_error("Invalid hexadecimal address: ", addr_str)),
        }
    } else {
        assert(v@.skip(0) =~= v@);
        match parse_u16_chars(&v, 0, 10) {
            Some(a) => Ok(a),
            None => Err(usage_error("Invalid decimal address: ", addr_str)),
        }
    }
}


/// A digit reads back as its value.
proof fn lemma_digit_roundtrip(d: nat, radix: nat)
    requires
        d < radix,
        radix == 10 || radix == 16,
    ensures
        digit_value(digit_char(d), radix) == Some(d),
{
    assert(digit_char(d) as u32 == if d < 10 {
        48 + d
    } else {
        55 + d
    });
}

/// Whether `c` is `0`-`9`.
spec fn is_decimal_digit(c: char) -> bool {
    '0' <= c <= '9'
}

/// Whether `c` is `0`-`9` or `A`-`F`.
spec fn is_hex_digit(c: char) -> bool {
    ('0' <= c <= '9') || ('A' <= c <= 'F')
}

/// A number written in decimal reads back as itself; it is made of digits.
proof fn lemma_decimal_roundtrip(n: nat)
    ensures
        digits_value(decimal(n), 10) == Some(n),
        decimal(n).len() > 0,
        forall|i: int| 0 <= i < decimal(n).len() ==> is_decimal_digit(#[trigger] decimal(n)[i]),
    decreases n,
{
    lemma_digit_roundtrip(n % 10, 10);
    let c = digit_char(n % 10);
    assert(is_decimal_digit(c));
    if n >= 10 {
        lemma_decimal_roundtrip(n / 10);
        let p = decimal(n / 10);
        assert(decimal(n) == p.push(c));
        assert(decimal(n).drop_last() =~= p);
        assert(decimal(n).last() == c);
        assert((n / 10) * 10 + n % 10 == n);
        assert forall|i: int| 0 <= i < decimal(n).len() implies is_decimal_digit(
            #[trigger] decimal(n)[i],
        ) by {
            if i < p.len() {
                assert(decimal(n)[i] == p[i]);
            }
        }
    } else {
        assert(decimal(n) == seq![c]);
        assert(decimal(n).drop_last() =~= Seq::<char>::empty());
        assert(digits_value(Seq::<char>::empty(), 10) == Some(0nat));
        assert(digits_value(decimal(n).drop_last(), 10) == Some(0nat));
    }
}

/// A number written in hexadecimal reads back as itself; it is made of
/// hexadecimal digits.
proof fn lemma_hex_roundtrip(n: nat)
    ensures
        digits_value(hex(n), 16) == Some(n),
        hex(n).len() > 0,
        forall|i: int| 0 <= i < hex(n).len() ==> is_hex_digit(#[trigger] hex(n)[i]),
    decreases n,
{
    lemma_digit_roundtrip(n % 16, 16);
    let c = digit_char(n % 16);
    assert(is_hex_digit(c));
    if n >= 16 {
        lemma_hex_roundtrip(n / 16);
        let p = hex(n / 16);
        assert(hex(n) == p.push(c));
        assert(hex(n).drop_last() =~= p);
        assert(hex(n).last() == c);
        assert((n / 16) * 16 + n % 16 == n);
        assert forall|i: int| 0 <= i < hex(n).len() implies is_hex_digit(#[trigger] hex(n)[i]) by {
            if i < p.len() {
                assert(hex(n)[i] == p[i]);
            }
        }
    } else {
        assert(hex(n) == seq![c]);
        assert(hex(n).drop_last() =~= Seq::<char>::empty());
        assert(digits_value(Seq::<char>::empty(), 16) == Some(0nat));
        assert(digits_value(hex(n).drop_last(), 16) == Some(0nat));
    }
}

/// Every address, written in decimal as the debugger prints addresses, or
/// in upper-case hexadecimal after `0x`, reads back as itself.
pub proof fn law_address_roundtrip(a: u16)
    ensures
        address_value(decimal(a as nat)) == Some(a),
        address_value(seq!['0', 'x'] + hex(a as nat)) == Some(a),
{
    let d = decimal(a as nat);
    lemma_decimal_roundtrip(a as nat);
    if has_hex_prefix(d) {
        assert(d.subrange(0, 2)[1] == d[1]);
        assert(is_decimal_digit(d[1]));
    }
    assert(is_decimal_digit(d[0]));
    let h = seq!['0', 'x'] + hex(a as nat);
    lemma_hex_roundtrip(a as nat);
    assert(h.subrange(0, 2) =~= seq!['0', 'x']);
    assert(h.skip(2) =~= hex(a as nat));
    assert(is_hex_digit(hex(a as nat)[0]));
}


/// `c` in lower case, for an ASCII letter.
pub open spec fn lower_char(c: char) -> char {
    if 'A' <= c <= 'Z' {
        ((c as u32 + 32) as u8) as char
    } else {
        c
    }
}

/// `s` in lower case (`str::to_lowercase` on ASCII text).
pub open spec fn lower(s: Seq<char>) -> Seq<char> {
    s.map_values(|c: char| lower_char(c))
}

/// Lower-case hexadecimal digits read as the upper-case ones.
proof fn lemma_lower_digits(s: Seq<char>)
    requires
        forall|i: int| 0 <= i < s.len() ==> is_hex_digit(#[trigger] s[i]),
    ensures
        digits_value(lower(s), 16) == digits_value(s, 16),
    decreases s.len(),
{
    if s.len() > 0 {
        let p = s.drop_last();
        lemma_lower_digits(p);
        assert(lower(s).drop_last() =~= lower(p));
        let c = s.last();
        assert(is_hex_digit(c));
        assert(lower(s).last() == lower_char(c));
        assert(digit_value(lower_char(c), 16) == digit_value(c, 16));
    }
}

/// Every address written in hexadecimal after `0X` in lower case reads
/// back as itself too.
pub proof fn law_address_lower_hex(a: u16)
    ensures
        address_value(seq!['0', 'X'] + lower(hex(a as nat))) == Some(a),
{
    lemma_hex_roundtrip(a as nat);
    lemma_lower_digits(hex(a as nat));
    let l = lower(hex(a as nat));
    let h = seq!['0', 'X'] + l;
    assert(h.subrange(0, 2) =~= seq!['0', 'X']);
    assert(!starts_with(h, seq!['0', 'x']));
    assert(h.skip(2) =~= l);
    assert(is_hex_digit(hex(a as nat)[0]));
    assert(l[0] == lower_char(hex(a as nat)[0]));
}

} // verus!
