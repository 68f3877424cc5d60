//! Reading unsigned numbers typed on the command line, as the standard library's integer
//! parsing does: an optional leading `+`, then at least one digit of the radix, and a value
//! within the type's range.
use vstd::prelude::*;
use crate::text::str_to_chars;

verus! {

/// The value of a digit character.
pub open spec fn digit_value(c: char) -> int {
    (c as u32) as int - 48
}

/// `c` is a digit of `radix` (at most ten).
pub open spec fn is_radix_digit(c: char, radix: nat) -> bool {
    48 <= (c as u32) && digit_value(c) < radix
}

/// The value of the digits `d` in `radix`.
pub open spec fn digits_value(d: Seq<char>, radix: nat) -> nat
    decreases d.len(),
{
    if d.len() == 0 {
        0
    } else {
        (digits_value(d.drop_last(), radix) * radix + digit_value(d.last())) as nat
    }
}

/// The digits of `s` after an optional leading `+` (a lone `+` is kept, and is no digit).
pub open spec fn unsigned_digits(s: Seq<char>) -> Seq<char> {
    if s.len() > 1 && s[0] == '+' { s.drop_first() } else { s }
}

/// The number `s` denotes in `radix`, if it is one and is at most `max`.
pub open spec fn parse_unsigned(s: Seq<char>, radix: nat, max: nat) -> Option<nat> {
    let d = unsigned_digits(s);
    if d.len() > 0 && (forall|i: int| 0 <= i < d.len() ==> is_radix_digit(#[trigger] d[i], radix))
        && digits_value(d, radix) <= max {
        Some(digits_value(d, radix))
    } else {
        None
    }
}

/// Reads `s` as an unsigned number in `radix` no greater than `max`.
pub fn parse_unsigned_str(s: &str, radix: u64, max: u64) -> (r: Option<u64>)
    requires
        2 <= radix <= 10,
        max <= u32::MAX,
    ensures
        match parse_unsigned(s@, radix as nat, max as nat) {
            Some(v) => r == Some(v as u64),
            None => r is None,
        },
{
    let cs = str_to_chars(s);
    let start: usize = if cs.len() > 1 && cs[0] == '+' { 1 } else { 0 };
    let ghost d = unsigned_digits(s@);
    assert(d =~= cs@.subrange(start as int, cs@.len() as int));
    if cs.len() == start {
        return None;
    }
    let mut value: u64 = 0;
    let mut valid = true;
    let mut big = false;
    let mut i: usize = start;
    while i < cs.len()
        invariant
            cs@ == s@,
            d == cs@.subrange(start as int, cs@.len() as int),
            start <= i <= cs@.len(),
            2 <= radix <= 10,
            max <= u32::MAX,
            valid == (forall|j: int| 0 <= j < i - start ==> is_radix_digit(#[trigger] d[j], radix as nat)),
            valid && !big ==> value == digits_value(d.subrange(0, i - start), radix as nat) && value <= max,
            valid && big ==> digits_value(d.subrange(0, i - start), radix as nat) > max,
        decreases cs@.len() - i,
    {
        let c = cs[i];
        assert(d[i - start] == c);
        let cv: u32 = c as u32;
        let ok = cv >= 48 && (cv as u64) < 48 + radix;
        if !ok {
            valid = false;
        } else if valid {
            let ghost p = d.subrange(0, i + 1 - start);
            assert(p.drop_last() =~= d.subrange(0, i - start));
            assert(p.last() == c);
            if !big {
                let dv: u64 = (cv as u64) - 48;
                assert(value * radix <= 10 * (u32::MAX as int)) by (nonlinear_arith)
                    requires value <= u32::MAX, radix <= 10;
                let nv = value * radix + dv;
                if nv > max {
                    big = true;
                } else {
                    value = nv;
                }
            } else {
                let ghost v0 = digits_value(d.subrange(0, i - start), radix as nat);
                assert(v0 * radix + digit_value(c) >= v0) by (nonlinear_arith)
                    requires radix >= 1, digit_value(c) >= 0;
            }
        }
        i = i + 1;
    }
    assert(d.subrange(0, d.len() as int) =~= d);
    if valid && !big {
        Some(value)
    } else {
        None
    }
}

} // verus!
