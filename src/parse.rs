use vstd::prelude::*;

use crate::text::chars_of;

verus! {

/// The value of `c` as a digit of radix up to 36, or 36 where it is none.
pub open spec fn digit_of(c: char) -> int {
    let u = c as u32;
    if 0x30 <= u <= 0x39 {
        u - 0x30
    } else if 0x61 <= u <= 0x7a {
        u - 0x61 + 10
    } else if 0x41 <= u <= 0x5a {
        u - 0x41 + 10
    } else {
        36
    }
}

/// Whether every character of `s` is a digit in `radix`.
pub open spec fn all_digits(s: Seq<char>, radix: int) -> bool {
    forall|i: int| 0 <= i < s.len() ==> digit_of(#[trigger] s[i]) < radix
}

/// The number that the digits `s` denote in `radix`.
pub open spec fn digits_value(s: Seq<char>, radix: int) -> int
    decreases s.len(),
{
    if s.len() == 0 {
        0
    } else {
        digits_value(s.drop_last(), radix) * radix + digit_of(s.last())
    }
}

/// The digits of an unsigned number: `s` without one leading `+`.
pub open spec fn unsigned_digits(s: Seq<char>) -> Seq<char> {
    if s.len() > 0 && s[0] == '+' {
        s.drop_first()
    } else {
        s
    }
}

/// The unsigned number that `s` denotes in `radix`, if it is at most `max`:
/// an optional `+`, then one digit or more.
pub open spec fn parse_unsigned(s: Seq<char>, radix: int, max: int) -> Option<int> {
    let d = unsigned_digits(s);
    if d.len() > 0 && all_digits(d, radix) && digits_value(d, radix) <= max {
        Some(digits_value(d, radix))
    } else {
        None
    }
}

/// The signed number that `s` denotes in `radix`, if it lies in `[min, max]`:
/// an optional `+` or `-`, then one digit or more.
pub open spec fn parse_signed(s: Seq<char>, radix: int, min: int, max: int) -> Option<int> {
    if s.len() > 0 && s[0] == '-' {
        let d = s.drop_first();
        if d.len() > 0 && all_digits(d, radix) && -digits_value(d, radix) >= min {
            Some(-digits_value(d, radix))
        } else {
            None
        }
    } else {
        parse_unsigned(s, radix, max)
    }
}

/// A hexadecimal 16-bit number, as `u16::from_str_radix(s, 16)` reads it.
pub open spec fn hex_u16(s: Seq<char>) -> Option<u16> {
    match parse_unsigned(s, 16, 0xffff) {
        Some(n) => Some(n as u16),
        None => None,
    }
}

/// A decimal 32-bit signed number, as `s.parse::<i32>()` reads it.
pub open spec fn dec_i32(s: Seq<char>) -> Option<i32> {
    match parse_signed(s, 10, -0x8000_0000, 0x7fff_ffff) {
        Some(n) => Some(n as i32),
        None => None,
    }
}

proof fn lemma_value_nonneg(s: Seq<char>, radix: int)
    requires
        radix >= 1,
        all_digits(s, radix),
    ensures
        digits_value(s, radix) >= 0,
    decreases s.len(),
{
    if s.len() > 0 {
        assert(all_digits(s.drop_last(), radix)) by {
            assert forall|i: int| 0 <= i < s.drop_last().len() implies digit_of(
                #[trigger] s.drop_last()[i],
            ) < radix by {
                assert(s.drop_last()[i] == s[i]);
            }
        }
        lemma_value_nonneg(s.drop_last(), radix);
        let v = digits_value(s.drop_last(), radix);
        assert(v * radix >= 0) by (nonlinear_arith)
            requires
                v >= 0,
                radix >= 1,
        ;
        assert(digit_of(s.last()) >= 0);
    }
}

fn digit(c: char) -> (r: u32)
    ensures
        r == digit_of(c),
{
    let u = c as u32;
    if 0x30 <= u && u <= 0x39 {
        u - 0x30
    } else if 0x61 <= u && u <= 0x7a {
        u - 0x61 + 10
    } else if 0x41 <= u && u <= 0x5a {
        u - 0x41 + 10
    } else {
        36
    }
}

/// The value of the digits `v[from..]` in `radix`, where all of them are
/// digits, there is one at least, and the value is at most `limit`.
fn digits_up_to(v: &Vec<char>, from: usize, radix: u32, limit: u64) -> (r: Option<u64>)
    requires
        from <= v.len(),
        2 <= radix <= 36,
        limit <= 0x1_0000_0000,
    ensures
        ({
            let d = v@.subrange(from as int, v.len() as int);
            match r {
                Some(n) => d.len() > 0 && all_digits(d, radix as int) && n == digits_value(
                    d,
                    radix as int,
                ) && n <= limit,
                None => !(d.len() > 0 && all_digits(d, radix as int) && digits_value(
                    d,
                    radix as int,
                ) <= limit),
            }
        }),
{
    if from == v.len() {
        return None;
    }
    let mut acc: u64 = 0;
    let mut over = false;
    let mut i: usize = from;
    while i < v.len()
        invariant
            from <= i <= v.len(),
            2 <= radix <= 36,
            limit <= 0x1_0000_0000,
            all_digits(v@.subrange(from as int, i as int), radix as int),
            !over ==> acc == digits_value(v@.subrange(from as int, i as int), radix as int)
                && acc <= limit,
            over ==> digits_value(v@.subrange(from as int, i as int), radix as int) > limit,
        decreases v.len() - i,
    {
        let ghost prev = v@.subrange(from as int, i as int);
        let ghost next = v@.subrange(from as int, i + 1);
        assert(next.drop_last() =~= prev);
        assert(next.last() == v@[i as int]);
        let d = digit(v[i]);
        if d >= radix {
            assert(!all_digits(v@.subrange(from as int, v.len() as int), radix as int)) by {
                assert(v@.subrange(from as int, v.len() as int)[i - from] == v@[i as int]);
            }
            return None;
        }
        assert(all_digits(next, radix as int)) by {
            assert forall|k: int| 0 <= k < next.len() implies digit_of(#[trigger] next[k])
                < radix by {
                if k < prev.len() {
                    assert(next[k] == prev[k]);
                }
            }
        }
        proof {
            lemma_value_nonneg(prev, radix as int);
        }
        if !over {
            assert(acc * radix <= 0x1_0000_0000 * 36) by (nonlinear_arith)
                requires
                    acc <= 0x1_0000_0000,
                    radix <= 36,
            ;
            acc = acc * (radix as u64) + (d as u64);
            if acc > limit {
                over = true;
            }
        } else {
            let ghost pv = digits_value(prev, radix as int);
            assert(pv * radix + d > limit) by (nonlinear_arith)
                requires
                    pv > limit,
                    limit >= 0,
                    radix >= 2,
                    d >= 0,
            ;
        }
        i = i + 1;
    }
    if over {
        None
    } else {
        Some(acc)
    }
}

/// Reads `v[from..]` as a hexadecimal 16-bit number, as
/// `u16::from_str_radix(_, 16)` does.
pub fn parse_hex_u16_from(v: &Vec<char>, from: usize) -> (r: Option<u16>)
    requires
        from <= v.len(),
    ensures
        r == hex_u16(v@.subrange(from as int, v.len() as int)),
{
    let ghost s = v@.subrange(from as int, v.len() as int);
    let start: usize = if from < v.len() && v[from] == '+' {
        from + 1
    } else {
        from
    };
    assert(v@.subrange(start as int, v.len() as int) =~= unsigned_digits(s));
    match digits_up_to(v, start, 16, 0xffff) {
        Some(n) => Some(n as u16),
        None => None,
    }
}

/// Reads a decimal 32-bit signed number as `s.parse::<i32>()` does.
pub fn parse_i32(s: &str) -> (r: Option<i32>)
    ensures
        r == dec_i32(s@),
{
    let v = chars_of(s);
    if v.len() > 0 && v[0] == '-' {
        assert(v@.subrange(1, v.len() as int) =~= s@.drop_first());
        match digits_up_to(&v, 1, 10, 0x8000_0000) {
            Some(n) => {
                if n == 0x8000_0000 {
                    Some(-2147483648i32)
                } else {
                    let m = n as i32;
                    Some(-m)
                }
            },
            None => None,
        }
    } else {
        let from: usize = if v.len() > 0 && v[0] == '+' {
            1
        } else {
            0
        };
        assert(v@.subrange(from as int, v.len() as int) =~= unsigned_digits(s@));
        match digits_up_to(&v, from, 10, 0x7fff_ffff) {
            Some(n) => Some(n as i32),
            None => None,
        }
    }
}

} // verus!
