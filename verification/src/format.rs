//! Number rendering for report cells: fixed-decimal text with the value
//! rounded half away from zero at the requested precision, and thousands
//! grouping of the integer part. Formatting never alters stored values.

use vstd::prelude::*;
use crate::numbers::{pow10, lemma_pow10_le6, div_round_half, div_round_i128, lemma_div_round_half_bound};
use crate::text::{char_of_digit, dec_digits_of, digit_char, u128_digits, append_chars, chars_to_string};

verus! {

/// `s` with a comma inserted every three characters, counted from the right.
pub open spec fn group_commas(s: Seq<char>) -> Seq<char>
    decreases s.len(),
{
    if s.len() <= 3 {
        s
    } else {
        group_commas(s.take(s.len() - 3)) + seq![','] + s.skip(s.len() - 3)
    }
}

/// The digits of `m` modulo ten to the `d`, left-padded with zeros to
/// exactly `d` characters.
pub open spec fn padded_digits(m: nat, d: nat) -> Seq<char>
    decreases d,
{
    if d == 0 {
        Seq::<char>::empty()
    } else {
        padded_digits(m / 10, (d - 1) as nat).push(char_of_digit((m % 10) as int))
    }
}

/// The rendering of fixed-point `v` at `d` decimal places: round half away
/// from zero at the `d`-th place, group the integer digits by thousands,
/// keep the sign only when the rounded value is negative.
pub open spec fn spec_format_fixed(v: int, d: nat) -> Seq<char>
    recommends
        d <= 6,
{
    let r = div_round_half(v, pow10((6 - d) as nat));
    let m = if r < 0 {
        -r
    } else {
        r
    };
    let sign: Seq<char> = if r < 0 {
        seq!['-']
    } else {
        Seq::<char>::empty()
    };
    let ip = m / pow10(d);
    let fp = m % pow10(d);
    sign + group_commas(dec_digits_of(ip as nat)) + if d == 0 {
        Seq::<char>::empty()
    } else {
        seq!['.'] + padded_digits(fp as nat, d)
    }
}

/// Thousands grouping of a character vector.
fn group_chars(digits: &Vec<char>) -> (r: Vec<char>)
    ensures
        r@ == group_commas(digits@),
    decreases digits@.len(),
{
    let n: usize = digits.len();
    if n <= 3 {
        let mut r: Vec<char> = Vec::new();
        append_chars(&mut r, digits);
        proof {
            assert(r@ =~= digits@);
        }
        r
    } else {
        let mut pre: Vec<char> = Vec::new();
        let mut i: usize = 0;
        while i < n - 3
            invariant
                i <= n - 3,
                n == digits@.len(),
                n > 3,
                pre@ == digits@.subrange(0, i as int),
            decreases n - 3 - i,
        {
            pre.push(digits[i]);
            proof {
                assert(digits@.subrange(0, i + 1) =~= digits@.subrange(0, i as int).push(
                    digits@[i as int],
                ));
            }
            i += 1;
        }
        proof {
            assert(pre@ =~= digits@.take(n - 3));
        }
        let mut r = group_chars(&pre);
        r.push(',');
        let mut j: usize = n - 3;
        while j < n
            invariant
                n - 3 <= j <= n,
                n == digits@.len(),
                n > 3,
                r@ == group_commas(digits@.take(n - 3)) + seq![','] + digits@.subrange(
                    n - 3,
                    j as int,
                ),
            decreases n - j,
        {
            r.push(digits[j]);
            proof {
                assert(group_commas(digits@.take(n - 3)) + seq![','] + digits@.subrange(
                    n - 3,
                    j + 1,
                ) =~= (group_commas(digits@.take(n - 3)) + seq![','] + digits@.subrange(
                    n - 3,
                    j as int,
                )).push(digits@[j as int]));
            }
            j += 1;
        }
        proof {
            assert(digits@.subrange(n - 3, n as int) =~= digits@.skip(n - 3));
        }
        r
    }
}

/// Exactly `d` digits of `m` modulo ten to the `d`, zero-padded.
fn padded_chars(m: u128, d: usize) -> (r: Vec<char>)
    ensures
        r@ == padded_digits(m as nat, d as nat),
    decreases d,
{
    if d == 0 {
        let r: Vec<char> = Vec::new();
        proof {
            assert(r@ =~= padded_digits(m as nat, 0));
        }
        r
    } else {
        let mut r = padded_chars(m / 10, d - 1);
        r.push(digit_char(m % 10));
        proof {
            assert(r@ =~= padded_digits(m as nat, d as nat));
        }
        r
    }
}

/// Renders a fixed-point value with `decimals` decimal places, rounded half
/// away from zero, thousands-grouped.
pub fn format_number(value: i128, decimals: usize) -> (r: String)
    requires
        decimals <= 6,
        -0x20000000000000000000000000000000 < value < 0x20000000000000000000000000000000,
    ensures
        r@ == spec_format_fixed(value as int, decimals as nat),
{
    proof {
        lemma_pow10_le6((6 - decimals) as nat);
        lemma_pow10_le6(decimals as nat);
    }
    let b: i128 = crate::numbers::pow10_i64(6 - decimals) as i128;
    let rounded: i128 = div_round_i128(value, b);
    proof {
        let m0 = if value >= 0 {
            value as int
        } else {
            -(value as int)
        };
        assert(m0 * b >= m0) by (nonlinear_arith)
            requires
                b >= 1,
                m0 >= 0,
        ;
        lemma_div_round_half_bound(value as int, b as int, m0);
    }
    let neg: bool = rounded < 0;
    let m: u128 = if neg {
        (-rounded) as u128
    } else {
        rounded as u128
    };
    let p: u128 = crate::numbers::pow10_i64(decimals) as u128;
    let ip: u128 = m / p;
    let fp: u128 = m % p;
    let int_digits = u128_digits(ip);
    let grouped = group_chars(&int_digits);
    let mut out: Vec<char> = Vec::new();
    if neg {
        out.push('-');
    }
    append_chars(&mut out, &grouped);
    if decimals > 0 {
        out.push('.');
        let frac = padded_chars(fp, decimals);
        append_chars(&mut out, &frac);
    }
    proof {
        assert(out@ =~= spec_format_fixed(value as int, decimals as nat));
    }
    chars_to_string(&out)
}

/// The rendering rule of `format_with_commas`: grouping applied to the text
/// after an optional leading minus sign.
pub open spec fn spec_group_string(s: Seq<char>) -> Seq<char> {
    if s.len() > 0 && s[0] == '-' {
        seq!['-'] + group_commas(s.skip(1))
    } else {
        group_commas(s)
    }
}

/// Inserts thousands separators into a plain digit string, keeping a
/// leading minus sign in place.
pub fn format_with_commas(num_str: &str) -> (r: String)
    ensures
        r@ == spec_group_string(num_str@),
{
    let n: usize = num_str.unicode_len();
    let mut chars: Vec<char> = Vec::new();
    let mut i: usize = 0;
    while i < n
        invariant
            i <= n,
            n == num_str@.len(),
            chars@ == num_str@.subrange(0, i as int),
        decreases n - i,
    {
        chars.push(num_str.get_char(i));
        proof {
            let ghost ci = num_str@[i as int];
            assert(num_str@.subrange(0, i + 1) =~= num_str@.subrange(0, i as int).push(ci));
        }
        i += 1;
    }
    proof {
        assert(chars@ =~= num_str@);
    }
    if chars.len() > 0 && chars[0] == '-' {
        let mut rest: Vec<char> = Vec::new();
        let mut j: usize = 1;
        while j < chars.len()
            invariant
                1 <= j <= chars@.len(),
                rest@ == chars@.subrange(1, j as int),
            decreases chars@.len() - j,
        {
            rest.push(chars[j]);
            proof {
                let ghost cj = chars@[j as int];
                assert(chars@.subrange(1, j + 1) =~= chars@.subrange(1, j as int).push(cj));
            }
            j += 1;
        }
        proof {
            assert(rest@ =~= chars@.skip(1));
        }
        let grouped = group_chars(&rest);
        let mut out: Vec<char> = Vec::new();
        out.push('-');
        append_chars(&mut out, &grouped);
        proof {
            assert(out@ =~= spec_group_string(num_str@));
        }
        chars_to_string(&out)
    } else {
        let grouped = group_chars(&chars);
        chars_to_string(&grouped)
    }
}

/// Renders a fixed-point amount rounded to a whole number, grouped.
pub fn format_large_number(value: i128) -> (r: String)
    requires
        -0x20000000000000000000000000000000 < value < 0x20000000000000000000000000000000,
    ensures
        r@ == spec_format_fixed(value as int, 0),
{
    format_number(value, 0)
}

} // verus!
