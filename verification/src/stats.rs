//! Shared statistics primitives: sums, means, median and percentages over
//! fixed-point values, each pinned to an exact integer specification.

use vstd::prelude::*;
use vstd::seq_lib::lemma_multiset_commutative;
use vstd::relations::{sorted_by, total_ordering};
use crate::numbers::{div_round_half, div_round_i128, lemma_div_round_half_bound, FX_LIMIT};
use crate::records::DELAY_LIMIT;

verus! {

/// Sum of a sequence of fixed-point values.
pub open spec fn sum_of(s: Seq<i64>) -> int
    decreases s.len(),
{
    if s.len() == 0 {
        0
    } else {
        sum_of(s.drop_last()) + s.last()
    }
}

/// Sums values whose magnitude a caller bounds; the sum is bounded by the
/// count times the bound.
pub fn sum_bounded(values: &Vec<i64>, bound: i64) -> (r: i128)
    requires
        bound >= 0,
        forall|i: int| 0 <= i < values@.len() ==> -bound <= #[trigger] values@[i] <= bound,
    ensures
        r == sum_of(values@),
        -(values@.len() as int * bound) <= r <= values@.len() as int * bound,
{
    let n: usize = values.len();
    let mut sum: i128 = 0;
    let mut i: usize = 0;
    proof {
        assert(values@.subrange(0, 0) =~= Seq::<i64>::empty());
    }
    while i < n
        invariant
            i <= n,
            n == values@.len(),
            bound >= 0,
            forall|k: int| 0 <= k < values@.len() ==> -bound <= #[trigger] values@[k] <= bound,
            sum == sum_of(values@.subrange(0, i as int)),
            -(i as int * bound) <= sum <= i as int * bound,
        decreases n - i,
    {
        let v = values[i];
        proof {
            assert((i as int + 1) * bound <= 0x10000000000000000 * 0x7fffffffffffffff)
                by (nonlinear_arith)
                requires
                    0 <= (i as int) && (i as int) < 0x10000000000000000,
                    0 <= (bound as int) && (bound as int) < 0x8000000000000000,
            ;
            assert((i as int + 1) * bound == i as int * bound + bound) by (nonlinear_arith);
            assert(values@.subrange(0, i + 1).drop_last() =~= values@.subrange(0, i as int));
        }
        sum = sum + v as i128;
        i += 1;
    }
    proof {
        assert(values@.subrange(0, n as int) =~= values@);
    }
    sum
}

/// A sum of bounded values is bounded by the count times the bound.
pub proof fn lemma_sum_of_bound(s: Seq<i64>, bound: int)
    requires
        bound >= 0,
        forall|i: int| 0 <= i < s.len() ==> -bound <= #[trigger] s[i] <= bound,
    ensures
        -(s.len() as int * bound) <= sum_of(s) <= s.len() as int * bound,
    decreases s.len(),
{
    if s.len() > 0 {
        lemma_sum_of_bound(s.drop_last(), bound);
        assert((s.len() as int) * bound == (s.len() - 1) * bound + bound) by (nonlinear_arith);
    }
}

/// Mean of fixed-point values, rounded half away from zero; zero for an
/// empty list.
pub open spec fn spec_average(s: Seq<i64>) -> int {
    if s.len() == 0 {
        0
    } else {
        div_round_half(sum_of(s), s.len() as int)
    }
}

/// Arithmetic mean of fixed-point values.
pub fn calculate_average(values: &Vec<i64>) -> (r: i64)
    requires
        forall|i: int| 0 <= i < values@.len() ==> -2 * FX_LIMIT <= #[trigger] values@[i] <= 2
            * FX_LIMIT,
    ensures
        r as int == spec_average(values@),
        -2 * FX_LIMIT <= r <= 2 * FX_LIMIT,
{
    let n: usize = values.len();
    if n == 0 {
        return 0;
    }
    let sum = sum_bounded(values, 2 * FX_LIMIT);
    proof {
        assert(n as int * (2 * FX_LIMIT as int) < 0x20000000000000000000000000000000)
            by (nonlinear_arith)
            requires
                0 < (n as int) && (n as int) < 0x10000000000000000,
        ;
        lemma_div_round_half_bound(sum as int, n as int, 2 * FX_LIMIT as int);
        assert(n as int * (2 * FX_LIMIT as int) == 2 * FX_LIMIT as int * n as int)
            by (nonlinear_arith);
    }
    let q = div_round_i128(sum, n as i128);
    q as i64
}

/// Mean of day counts, scaled to fixed-point units, rounded half away from
/// zero; zero for an empty list.
pub open spec fn spec_average_scaled(s: Seq<i64>) -> int {
    if s.len() == 0 {
        0
    } else {
        div_round_half(sum_of(s) * 1_000_000, s.len() as int)
    }
}

/// Mean of whole-day delays, as a fixed-point number of days.
pub fn calculate_average_i64(values: &Vec<i64>) -> (r: i64)
    requires
        forall|i: int| 0 <= i < values@.len() ==> -DELAY_LIMIT <= #[trigger] values@[i]
            <= DELAY_LIMIT,
    ensures
        r as int == spec_average_scaled(values@),
        -DELAY_LIMIT * 1_000_000 <= r <= DELAY_LIMIT * 1_000_000,
{
    let n: usize = values.len();
    if n == 0 {
        return 0;
    }
    let sum = sum_bounded(values, DELAY_LIMIT);
    proof {
        assert(n as int * DELAY_LIMIT as int * 1_000_000 < 0x20000000000000000000000000000000
            && (n as int * DELAY_LIMIT as int) * 1_000_000 == n as int * (DELAY_LIMIT as int
            * 1_000_000)) by (nonlinear_arith)
            requires
                0 < (n as int) && (n as int) < 0x10000000000000000,
        ;
        assert(-(n as int * DELAY_LIMIT as int) * 1_000_000 <= sum * 1_000_000 <= (n as int
            * DELAY_LIMIT as int) * 1_000_000) by (nonlinear_arith)
            requires
                -(n as int * DELAY_LIMIT as int) <= sum <= n as int * DELAY_LIMIT as int,
        ;
        assert(n as int * (DELAY_LIMIT as int * 1_000_000) == DELAY_LIMIT as int * 1_000_000 * (
        n as int)) by (nonlinear_arith);
        lemma_div_round_half_bound(sum as int * 1_000_000, n as int, DELAY_LIMIT as int * 1_000_000);
    }
    let q = div_round_i128(sum * 1_000_000, n as i128);
    q as i64
}

/// Share of `part` in `total` as a fixed-point percentage; zero when the
/// total is zero.
pub open spec fn spec_percentage(part: int, total: int) -> int {
    if total == 0 {
        0
    } else {
        div_round_half(part * 100_000_000, total)
    }
}

/// Percentage of a count within a total, in fixed-point units.
pub fn calculate_percentage(part: usize, total: usize) -> (r: i64)
    requires
        part <= total,
    ensures
        r as int == spec_percentage(part as int, total as int),
        0 <= r <= 100_000_000,
{
    if total == 0 {
        return 0;
    }
    proof {
        assert(part as int * 100_000_000 <= total as int * 100_000_000) by (nonlinear_arith)
            requires
                part as int <= total as int,
        ;
        assert(total as int * 100_000_000 < 0x20000000000000000000000000000000)
            by (nonlinear_arith)
            requires
                0 < (total as int) && (total as int) < 0x10000000000000000,
        ;
        assert(total as int * 100_000_000 == 100_000_000 * total as int) by (nonlinear_arith);
        lemma_div_round_half_bound(part as int * 100_000_000, total as int, 100_000_000);
    }
    let q = div_round_i128(part as i128 * 100_000_000, total as i128);
    q as i64
}

/// The ascending order on fixed-point values.
pub open spec fn fx_leq() -> spec_fn(i64, i64) -> bool {
    |a: i64, b: i64| a <= b
}

/// The ascending rearrangement of a sequence of fixed-point values.
pub open spec fn sorted_fx(s: Seq<i64>) -> Seq<i64> {
    s.sort_by(fx_leq())
}

/// Sorts fixed-point values ascending.
pub fn sort_fx(values: &Vec<i64>) -> (out: Vec<i64>)
    ensures
        out@ == sorted_fx(values@),
{
    let n: usize = values.len();
    let mut out: Vec<i64> = Vec::new();
    let mut i: usize = 0;
    proof {
        broadcast use vstd::prelude::Seq::to_multiset_ensures;

        assert(values@.subrange(0, 0) =~= Seq::<i64>::empty());
        assert(out@.to_multiset() =~= values@.subrange(0, 0).to_multiset());
    }
    while i < n
        invariant
            i <= n,
            n == values@.len(),
            sorted_by(out@, fx_leq()),
            out@.to_multiset() == values@.subrange(0, i as int).to_multiset(),
            out@.len() == i,
        decreases n - i,
    {
        let v = values[i];
        let mut pos: usize = 0;
        while pos < out.len() && out[pos] <= v
            invariant
                pos <= out@.len(),
                forall|k: int| 0 <= k < pos ==> out@[k] <= v,
            decreases out@.len() - pos,
        {
            pos += 1;
        }
        let ghost before = out@;
        out.insert(pos, v);
        proof {
            broadcast use vstd::prelude::Seq::to_multiset_ensures;
            broadcast use vstd::multiset::group_multiset_axioms;

            // The inserted sequence splits around the new element.
            let take = before.subrange(0, pos as int);
            let skip = before.subrange(pos as int, before.len() as int);
            assert(out@ =~= take.push(v) + skip);
            assert(before =~= take + skip);
            lemma_multiset_commutative(take.push(v), skip);
            lemma_multiset_commutative(take, skip);
            take.to_multiset_ensures();
            assert(take.push(v).to_multiset() =~= take.to_multiset().insert(v));
            assert(out@.to_multiset() =~= before.to_multiset().insert(v));
            assert(values@.subrange(0, i + 1) =~= values@.subrange(0, i as int).push(v));
            values@.subrange(0, i as int).to_multiset_ensures();
            assert(values@.subrange(0, i as int).push(v).to_multiset() =~= values@.subrange(
                0,
                i as int,
            ).to_multiset().insert(v));
            // Sortedness is preserved around the insertion point.
            let p = pos as int;
            assert forall|x: int, y: int| 0 <= x <= y < out@.len() implies #[trigger] fx_leq()(
                out@[x],
                out@[y],
            ) by {
                if y < p {
                    assert(fx_leq()(before[x], before[y]));
                } else if y == p {
                    if x < p {
                        assert(before[x] <= v);
                    }
                } else if x < p {
                    assert(fx_leq()(before[x], before[y - 1]));
                } else if x == p {
                    assert(v < before[p]);
                    assert(fx_leq()(before[p], before[y - 1]));
                } else {
                    assert(fx_leq()(before[x - 1], before[y - 1]));
                }
            };
            assert(sorted_by(out@, fx_leq()));
        }
        i += 1;
    }
    proof {
        broadcast use vstd::prelude::Seq::to_multiset_ensures;

        assert(values@.subrange(0, n as int) =~= values@);
        values@.lemma_sort_by_ensures(fx_leq());
        assert(total_ordering(fx_leq()));
        vstd::seq_lib::lemma_sorted_unique(out@, values@.sort_by(fx_leq()), fx_leq());
        assert(out@ =~= sorted_fx(values@));
    }
    out
}

/// Median of fixed-point values: the middle of the ascending rearrangement,
/// or the rounded mean of the two middles; zero for an empty list.
pub open spec fn spec_median(s: Seq<i64>) -> int {
    if s.len() == 0 {
        0
    } else {
        let t = sorted_fx(s);
        if s.len() % 2 == 1 {
            t[s.len() as int / 2] as int
        } else {
            div_round_half(t[s.len() as int / 2 - 1] + t[s.len() as int / 2], 2)
        }
    }
}

/// Median of a list of fixed-point values.
pub fn calculate_median(values: &Vec<i64>) -> (r: i64)
    requires
        forall|i: int| 0 <= i < values@.len() ==> -2 * FX_LIMIT <= #[trigger] values@[i] <= 2
            * FX_LIMIT,
    ensures
        r as int == spec_median(values@),
        -2 * FX_LIMIT <= r <= 2 * FX_LIMIT,
{
    let n: usize = values.len();
    if n == 0 {
        return 0;
    }
    let sorted = sort_fx(values);
    proof {
        broadcast use vstd::prelude::Seq::to_multiset_ensures;

        values@.lemma_sort_by_ensures(fx_leq());
        assert(sorted@.to_multiset().len() == values@.to_multiset().len());
        assert(sorted@.len() == values@.len());
        assert(forall|k: int|
            0 <= k < sorted@.len() ==> -2 * FX_LIMIT <= #[trigger] sorted@[k] <= 2 * FX_LIMIT)
            by {
            assert(forall|k: int|
                0 <= k < sorted@.len() ==> values@.contains(#[trigger] sorted@[k])) by {
                assert(forall|k: int|
                    0 <= k < sorted@.len() ==> sorted@.contains(#[trigger] sorted@[k]));
                assert(forall|x: i64|
                    #[trigger] sorted@.contains(x) ==> values@.contains(x)) by {
                    assert(sorted@.to_multiset() == values@.to_multiset());
                };
            };
        };
    }
    let mid: usize = n / 2;
    if n % 2 == 1 {
        sorted[mid]
    } else {
        let a = sorted[mid - 1];
        let b = sorted[mid];
        proof {
            lemma_div_round_half_bound(a as int + b as int, 2, 2 * FX_LIMIT as int);
        }
        let q = div_round_i128(a as i128 + b as i128, 2);
        q as i64
    }
}

} // verus!
