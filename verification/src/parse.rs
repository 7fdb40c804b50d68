//! Numeric text cleaning. A raw cell holds a decimal number, possibly with
//! thousands separators and surrounding whitespace; blank cells and the
//! literal `N/A` mean "absent". The value is read into fixed-point units
//! (see `numbers`): fractional digits beyond the sixth are ignored, and a
//! magnitude beyond `FX_LIMIT` is rejected like any unparseable text.

use vstd::prelude::*;
use crate::numbers::{pow10, lemma_pow10_le6, FX_LIMIT};
use crate::text::{is_space_char, is_space, is_digit_char, is_digit, digit_val, seq_is_blank, is_blank, str_eq};

verus! {

/// The characters of the literal `N/A`.
pub open spec fn na_seq() -> Seq<char> {
    seq!['N', '/', 'A']
}

/// `s` with every comma removed.
pub open spec fn strip_commas(s: Seq<char>) -> Seq<char> {
    s.filter(|c: char| c != ',')
}

/// First index at or after `i` holding a non-whitespace character
/// (the length if none).
pub open spec fn skip_spaces(u: Seq<char>, i: int) -> int
    decreases u.len() - i,
{
    if 0 <= i < u.len() && is_space_char(u[i]) {
        skip_spaces(u, i + 1)
    } else {
        i
    }
}

/// First index at or after `i` holding a non-digit character
/// (the length if none).
pub open spec fn end_digits(u: Seq<char>, i: int) -> int
    decreases u.len() - i,
{
    if 0 <= i < u.len() && is_digit_char(u[i]) {
        end_digits(u, i + 1)
    } else {
        i
    }
}

/// Value of the decimal digits `u[i .. j)`.
pub open spec fn digits_value(u: Seq<char>, i: int, j: int) -> int
    decreases j - i,
{
    if j <= i {
        0
    } else {
        digits_value(u, i, j - 1) * 10 + digit_val(u[j - 1])
    }
}

/// A run of digits has a value between zero and ten to its width.
pub proof fn lemma_digits_value_range(u: Seq<char>, i: int, j: int)
    requires
        0 <= i <= j <= u.len(),
        forall|t: int| i <= t < j ==> is_digit_char(u[t]),
    ensures
        0 <= digits_value(u, i, j),
        j - i <= 6 ==> digits_value(u, i, j) < pow10((j - i) as nat),
    decreases j - i,
{
    if j > i {
        lemma_digits_value_range(u, i, j - 1);
        let prev = digits_value(u, i, j - 1);
        assert(prev * 10 >= 0) by (nonlinear_arith)
            requires
                prev >= 0,
        ;
        if j - i <= 6 {
            assert(pow10((j - i) as nat) == 10 * pow10((j - i - 1) as nat));
            assert(prev * 10 + 9 < 10 * pow10((j - i - 1) as nat)) by (nonlinear_arith)
                requires
                    prev < pow10((j - i - 1) as nat),
            ;
        }
    }
}

/// A longer run of digits never has a smaller value.
pub proof fn lemma_digits_value_mono(u: Seq<char>, i: int, j: int, k: int)
    requires
        0 <= i <= j <= k <= u.len(),
        forall|t: int| i <= t < k ==> is_digit_char(u[t]),
    ensures
        0 <= digits_value(u, i, j) <= digits_value(u, i, k),
    decreases k - j,
{
    lemma_digits_value_range(u, i, j);
    if j < k {
        lemma_digits_value_mono(u, i, j, k - 1);
        let prev = digits_value(u, i, k - 1);
        assert(digit_val(u[k - 1]) >= 0);
        assert(prev * 10 >= prev) by (nonlinear_arith)
            requires
                prev >= 0,
        ;
    }
}

/// Value of the fractional digits `u[i .. j)`, scaled to millionths;
/// digits beyond the first six are ignored.
pub open spec fn frac_value6(u: Seq<char>, i: int, j: int) -> int {
    let taken = if j - i <= 6 {
        j
    } else {
        i + 6
    };
    let width = if j - i <= 6 {
        (j - i)
    } else {
        6
    };
    if width <= 0 {
        0
    } else {
        digits_value(u, i, taken) * pow10((6 - width) as nat)
    }
}

/// Reading of comma-stripped numeric text `u`: optional surrounding
/// whitespace, an optional sign, then digits with an optional fractional
/// part, at least one digit in all. The result is in fixed-point units;
/// text outside `[-FX_LIMIT, FX_LIMIT]` reads as nothing.
pub open spec fn parse_fixed(u: Seq<char>) -> Option<int> {
    let a = skip_spaces(u, 0);
    let neg = a < u.len() && u[a] == '-';
    let b = if a < u.len() && (u[a] == '-' || u[a] == '+') {
        a + 1
    } else {
        a
    };
    let c = end_digits(u, b);
    let has_dot = c < u.len() && u[c] == '.';
    let d = if has_dot {
        c + 1
    } else {
        c
    };
    let e = if has_dot {
        end_digits(u, d)
    } else {
        c
    };
    let tail = skip_spaces(u, e);
    if (c - b) + (e - d) == 0 || tail != u.len() {
        None
    } else {
        let mag = digits_value(u, b, c) * 1_000_000 + frac_value6(u, d, e);
        let v = if neg {
            -mag
        } else {
            mag
        };
        if -(FX_LIMIT as int) <= v <= FX_LIMIT as int {
            Some(v)
        } else {
            None
        }
    }
}

/// What a raw numeric cell denotes: nothing when blank or `N/A`, else the
/// fixed-point reading of the comma-stripped text.
pub open spec fn spec_validate_number(s: Seq<char>) -> Option<int> {
    if seq_is_blank(s) || s == na_seq() {
        None
    } else {
        parse_fixed(strip_commas(s))
    }
}

/// Reads a numeric cell into fixed-point units; `None` for an absent or
/// unreadable value.
pub fn validate_number(value: &str) -> (r: Option<i64>)
    ensures
        r matches Some(v) ==> spec_validate_number(value@) == Some(v as int),
        r is None ==> spec_validate_number(value@) is None,
{
    proof {
        reveal_strlit("N/A");
        assert("N/A"@ =~= na_seq());
    }
    if is_blank(value) || str_eq(value, "N/A") {
        return None;
    }
    // Strip commas.
    let n: usize = value.unicode_len();
    let mut t: Vec<char> = Vec::new();
    let mut i: usize = 0;
    proof {
        broadcast use vstd::prelude::Seq::lemma_filter_push;

        assert(value@.subrange(0, 0) =~= Seq::<char>::empty());
        assert(t@ =~= value@.subrange(0, 0).filter(|c: char| c != ','));
    }
    while i < n
        invariant
            i <= n,
            n == value@.len(),
            t@ == value@.subrange(0, i as int).filter(|c: char| c != ','),
        decreases n - i,
    {
        let c = value.get_char(i);
        proof {
            broadcast use vstd::prelude::Seq::lemma_filter_push;

            let ghost vi = value@[i as int];
            assert(value@.subrange(0, i + 1) =~= value@.subrange(0, i as int).push(vi));
        }
        if c != ',' {
            t.push(c);
        }
        i += 1;
    }
    proof {
        assert(value@.subrange(0, n as int) =~= value@);
    }
    parse_fixed_chars(&t)
}

/// Reads comma-free numeric text held as a character vector.
fn parse_fixed_chars(t: &Vec<char>) -> (r: Option<i64>)
    ensures
        r matches Some(v) ==> parse_fixed(t@) == Some(v as int),
        r is None ==> parse_fixed(t@) is None,
{
    let len: usize = t.len();
    // Leading whitespace.
    let mut a: usize = 0;
    while a < len && is_space(t[a])
        invariant
            a <= len,
            len == t@.len(),
            skip_spaces(t@, 0) == skip_spaces(t@, a as int),
        decreases len - a,
    {
        a += 1;
    }
    assert(skip_spaces(t@, 0) == a as int);
    // Sign.
    let mut neg: bool = false;
    let mut b: usize = a;
    if a < len {
        let c = t[a];
        if c == '-' {
            neg = true;
            b = a + 1;
        } else if c == '+' {
            b = a + 1;
        }
    }
    // Integer digits, capped at the representable domain.
    let mut c_end: usize = b;
    let mut acc: i128 = 0;
    let mut too_big: bool = false;
    while c_end < len && is_digit(t[c_end])
        invariant
            b <= c_end <= len,
            len == t@.len(),
            end_digits(t@, b as int) == end_digits(t@, c_end as int),
            forall|j: int| b <= j < c_end ==> is_digit_char(t@[j]),
            !too_big ==> acc == digits_value(t@, b as int, c_end as int) && 0 <= acc
                <= 100_000_000_000,
            too_big ==> digits_value(t@, b as int, c_end as int) > 100_000_000_000,
        decreases len - c_end,
    {
        let d = t[c_end];
        proof {
            if too_big {
                lemma_digits_value_mono(t@, b as int, c_end as int, c_end + 1);
            }
        }
        if !too_big {
            acc = acc * 10 + (d as u32 - 0x30) as i128;
            if acc > 100_000_000_000 {
                too_big = true;
            }
        }
        c_end += 1;
    }
    // Fractional digits.
    let mut has_dot: bool = false;
    let mut d0: usize = c_end;
    if c_end < len && t[c_end] == '.' {
        has_dot = true;
        d0 = c_end + 1;
    }
    let mut e_end: usize = d0;
    let mut fr: i128 = 0;
    let mut fr_cnt: usize = 0;
    while has_dot && e_end < len && is_digit(t[e_end])
        invariant
            d0 <= e_end <= len,
            len == t@.len(),
            end_digits(t@, d0 as int) == end_digits(t@, e_end as int),
            forall|j: int| d0 <= j < e_end ==> is_digit_char(t@[j]),
            fr_cnt <= 6,
            fr_cnt as int == if e_end - d0 <= 6 {
                e_end - d0
            } else {
                6int
            },
            fr == digits_value(t@, d0 as int, d0 + fr_cnt),
            0 <= fr < pow10(fr_cnt as nat),
        decreases len - e_end,
    {
        let d = t[e_end];
        if fr_cnt < 6 {
            proof {
                lemma_pow10_le6(fr_cnt as nat);
                lemma_pow10_le6((fr_cnt + 1) as nat);
                assert(pow10((fr_cnt + 1) as nat) == 10 * pow10(fr_cnt as nat));
                assert(fr * 10 + 9 < 10 * pow10(fr_cnt as nat)) by (nonlinear_arith)
                    requires
                        fr < pow10(fr_cnt as nat),
                ;
            }
            fr = fr * 10 + (d as u32 - 0x30) as i128;
            fr_cnt += 1;
        }
        e_end += 1;
    }
    proof {
        lemma_pow10_le6(fr_cnt as nat);
    }
    // Trailing whitespace.
    let mut tail: usize = e_end;
    while tail < len && is_space(t[tail])
        invariant
            e_end <= tail <= len,
            len == t@.len(),
            skip_spaces(t@, e_end as int) == skip_spaces(t@, tail as int),
        decreases len - tail,
    {
        tail += 1;
    }
    assert(skip_spaces(t@, e_end as int) == tail as int);

    let n_int: usize = c_end - b;
    let n_frac: usize = e_end - d0;
    if n_int + n_frac == 0 || tail != len {
        return None;
    }
    proof {
        if has_dot {
            lemma_digits_value_range(t@, d0 as int, d0 + fr_cnt);
        }
    }
    if too_big {
        proof {
            assert(digits_value(t@, b as int, c_end as int) * 1_000_000 > 100_000_000_000
                * 1_000_000) by (nonlinear_arith)
                requires
                    digits_value(t@, b as int, c_end as int) > 100_000_000_000,
            ;
            if has_dot && e_end > d0 {
                lemma_pow10_le6((6 - fr_cnt) as nat);
                assert(frac_value6(t@, d0 as int, e_end as int) >= 0) by (nonlinear_arith)
                    requires
                        frac_value6(t@, d0 as int, e_end as int) == digits_value(
                            t@,
                            d0 as int,
                            d0 + fr_cnt,
                        ) * pow10((6 - fr_cnt) as nat),
                        digits_value(t@, d0 as int, d0 + fr_cnt) >= 0,
                        pow10((6 - fr_cnt) as nat) >= 0,
                ;
            }
        }
        return None;
    }
    // Scale the fraction to millionths.
    let scale_up: i128 = if n_frac == 0 {
        0
    } else {
        crate::numbers::pow10_i64(6 - fr_cnt) as i128
    };
    proof {
        assert(fr * scale_up <= 1_000_000 * 1_000_000) by (nonlinear_arith)
            requires
                0 <= fr < 1_000_000,
                0 <= scale_up <= 1_000_000,
        ;
    }
    let fr6: i128 = fr * scale_up;
    proof {
        if n_frac > 0 {
            assert(fr6 == frac_value6(t@, d0 as int, e_end as int));
        } else {
            assert(frac_value6(t@, d0 as int, e_end as int) == 0);
        }
    }
    let mag: i128 = acc * 1_000_000 + fr6;
    let v: i128 = if neg {
        -mag
    } else {
        mag
    };
    if v < -(FX_LIMIT as i128) || v > FX_LIMIT as i128 {
        return None;
    }
    Some(v as i64)
}

} // verus!
