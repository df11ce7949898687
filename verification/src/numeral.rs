//! Decimal and hexadecimal numerals: printing (`{}` and `{:x}`) and parsing
//! with the rules of Rust's integer `FromStr`.
use vstd::prelude::*;
use crate::text::{all_digits, dec, digit_char, digit_value, digits_value, hex, hex_char, is_digit, parse_i32_spec, parse_u16_spec, parse_u64_spec};

verus! {

proof fn lemma_dec_nonempty(n: nat)
    ensures
        dec(n).len() >= 1,
    decreases n,
{
    if n >= 10 {
        lemma_dec_nonempty(n / 10);
    }
}

proof fn lemma_hex_nonempty(n: nat)
    ensures
        hex(n).len() >= 1,
    decreases n,
{
    if n >= 16 {
        lemma_hex_nonempty(n / 16);
    }
}

/// The decimal digit character of `d`.
fn digit(d: u64) -> (c: char)
    requires
        d < 10,
    ensures
        c == digit_char(d as nat),
{
    if d == 0 {
        '0'
    } else if d == 1 {
        '1'
    } else if d == 2 {
        '2'
    } else if d == 3 {
        '3'
    } else if d == 4 {
        '4'
    } else if d == 5 {
        '5'
    } else if d == 6 {
        '6'
    } else if d == 7 {
        '7'
    } else if d == 8 {
        '8'
    } else {
        '9'
    }
}

/// The lower-case hexadecimal digit character of `d`.
fn hex_digit(d: u64) -> (c: char)
    requires
        d < 16,
    ensures
        c == hex_char(d as nat),
{
    if d < 10 {
        digit(d)
    } else if d == 10 {
        'a'
    } else if d == 11 {
        'b'
    } else if d == 12 {
        'c'
    } else if d == 13 {
        'd'
    } else if d == 14 {
        'e'
    } else {
        'f'
    }
}

/// The decimal numeral of `n` (what `format!("{}", n)` prints).
pub fn dec_chars(n: u64) -> (r: Vec<char>)
    ensures
        r@ == dec(n as nat),
    decreases n,
{
    if n < 10 {
        let mut v: Vec<char> = Vec::new();
        v.push(digit(n));
        v
    } else {
        let mut v = dec_chars(n / 10);
        v.push(digit(n % 10));
        v
    }
}

/// The lower-case hexadecimal numeral of `n` (what `format!("{:x}", n)`
/// prints).
pub fn hex_chars(n: u64) -> (r: Vec<char>)
    ensures
        r@ == hex(n as nat),
    decreases n,
{
    if n < 16 {
        let mut v: Vec<char> = Vec::new();
        v.push(hex_digit(n));
        v
    } else {
        let mut v = hex_chars(n / 16);
        v.push(hex_digit(n % 16));
        v
    }
}

/// Whether `c` is an ASCII digit.
pub fn char_is_digit(c: char) -> (r: bool)
    ensures
        r == is_digit(c),
{
    '0' <= c && c <= '9'
}

fn digit_val(c: char) -> (r: u64)
    requires
        is_digit(c),
    ensures
        r == digit_value(c),
        r < 10,
{
    if c == '0' {
        0
    } else if c == '1' {
        1
    } else if c == '2' {
        2
    } else if c == '3' {
        3
    } else if c == '4' {
        4
    } else if c == '5' {
        5
    } else if c == '6' {
        6
    } else if c == '7' {
        7
    } else if c == '8' {
        8
    } else {
        9
    }
}

proof fn lemma_digits_value_grows(s: Seq<char>, i: int)
    requires
        0 <= i <= s.len(),
        all_digits(s),
    ensures
        digits_value(s.subrange(0, i)) <= digits_value(s),
    decreases s.len() - i,
{
    if i < s.len() {
        lemma_digits_value_grows(s, i + 1);
        let t = s.subrange(0, i + 1);
        assert(t.drop_last() == s.subrange(0, i));
    } else {
        assert(s.subrange(0, i) == s);
    }
}

/// The value of the digit run `s[from..]`, or `None` when it is empty, holds
/// a non-digit, or exceeds `bound`.
fn digits_bounded(s: &[char], from: usize, bound: u64) -> (r: Option<u64>)
    requires
        from <= s@.len(),
        bound >= 9,
    ensures
        ({
            let d = s@.subrange(from as int, s@.len() as int);
            r == if d.len() > 0 && all_digits(d) && digits_value(d) <= bound {
                Some(digits_value(d) as u64)
            } else {
                None
            }
        }),
{
    let ghost d = s@.subrange(from as int, s@.len() as int);
    if from == s.len() {
        return None;
    }
    let mut i: usize = from;
    while i < s.len()
        invariant
            from <= i <= s@.len(),
            d == s@.subrange(from as int, s@.len() as int),
            forall|k: int| from <= k < i ==> is_digit(#[trigger] s@[k]),
        decreases s.len() - i,
    {
        if !char_is_digit(s[i]) {
            proof {
                assert(d[i - from] == s@[i as int]);
            }
            return None;
        }
        i = i + 1;
    }
    proof {
        assert forall|k: int| 0 <= k < d.len() implies is_digit(#[trigger] d[k]) by {
            assert(d[k] == s@[k + from]);
        }
    }
    let mut acc: u64 = 0;
    let mut j: usize = from;
    while j < s.len()
        invariant
            from <= j <= s@.len(),
            d == s@.subrange(from as int, s@.len() as int),
            all_digits(d),
            acc as nat == digits_value(d.subrange(0, j - from)),
            acc <= bound,
            bound >= 9,
        decreases s.len() - j,
    {
        proof {
            assert(d[j - from] == s@[j as int]);
        }
        let dv = digit_val(s[j]);
        proof {
            let t = d.subrange(0, j - from + 1);
            assert(t.drop_last() == d.subrange(0, j - from));
            assert(t.last() == s@[j as int]);
        }
        if acc > (bound - dv) / 10 {
            proof {
                assert(acc * 10 + dv > bound) by (nonlinear_arith)
                    requires
                        acc > (bound - dv) / 10,
                        dv <= bound || dv > bound,
                        dv < 10,
                ;
                lemma_digits_value_grows(d, j - from + 1);
            }
            return None;
        }
        proof {
            assert(acc * 10 + dv <= bound) by (nonlinear_arith)
                requires
                    acc <= (bound - dv) / 10,
                    dv < 10,
            ;
        }
        acc = acc * 10 + dv;
        j = j + 1;
    }
    proof {
        assert(d.subrange(0, d.len() as int) == d);
    }
    Some(acc)
}

/// `s.parse::<u64>()`: an optional `+` and one or more ASCII digits within
/// the range of `u64`.
pub fn parse_u64(s: &[char]) -> (r: Option<u64>)
    ensures
        r == parse_u64_spec(s@),
{
    let from: usize = if s.len() > 0 && s[0] == '+' {
        1
    } else {
        0
    };
    proof {
        if from == 1 {
            assert(s@.drop_first() == s@.subrange(1, s@.len() as int));
        } else {
            assert(s@ == s@.subrange(0, s@.len() as int));
        }
    }
    digits_bounded(s, from, u64::MAX)
}

/// `s.parse::<u16>()`.
pub fn parse_u16(s: &[char]) -> (r: Option<u16>)
    ensures
        r == parse_u16_spec(s@),
{
    let from: usize = if s.len() > 0 && s[0] == '+' {
        1
    } else {
        0
    };
    proof {
        if from == 1 {
            assert(s@.drop_first() == s@.subrange(1, s@.len() as int));
        } else {
            assert(s@ == s@.subrange(0, s@.len() as int));
        }
    }
    match digits_bounded(s, from, 0xFFFF) {
        Some(v) => Some(v as u16),
        None => None,
    }
}

/// `s.parse::<i32>()`: an optional sign and one or more ASCII digits within
/// the range of `i32`.
pub fn parse_i32(s: &[char]) -> (r: Option<i32>)
    ensures
        r == parse_i32_spec(s@),
{
    if s.len() > 0 && s[0] == '-' {
        proof {
            assert(s@.drop_first() == s@.subrange(1, s@.len() as int));
        }
        match digits_bounded(s, 1, 0x8000_0000) {
            Some(v) => {
                if v == 0x8000_0000 {
                    Some(i32::MIN)
                } else {
                    let x: i32 = v as i32;
                    Some(-x)
                }
            },
            None => None,
        }
    } else {
        let from: usize = if s.len() > 0 && s[0] == '+' {
            1
        } else {
            0
        };
        proof {
            if from == 1 {
                assert(s@.drop_first() == s@.subrange(1, s@.len() as int));
            } else {
                assert(s@ == s@.subrange(0, s@.len() as int));
            }
        }
        match digits_bounded(s, from, 0x7FFF_FFFF) {
            Some(v) => Some(v as i32),
            None => None,
        }
    }
}

} // verus!
