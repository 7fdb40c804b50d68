//! Dataset-wide summary: cardinalities and totals over the filtered
//! records. The average delay is reported to one decimal place; total
//! savings to the nearest whole unit.

use vstd::prelude::*;
use crate::metrics::{distinct_keys, delays_of, savings_of, delays_vec, savings_vec, contains_str};
use crate::numbers::{FX_LIMIT, div_round_half, div_round_i128, lemma_div_round_half_bound};
use crate::records::{ProcessedRecord, all_wf, DELAY_LIMIT};
use crate::report1::region_of;
use crate::report2::contractor_of;
use crate::stats::{sum_of, sum_bounded, spec_average_scaled, calculate_average_i64};
use crate::text::{seq_is_blank, is_blank, str_eq};
use crate::validate::unknown_seq;

verus! {

/// Dataset-wide aggregates. The average delay is held in tenths of a day;
/// total savings in whole units.
pub struct SummaryStats {
    pub total_projects: usize,
    pub total_contractors: usize,
    pub total_provinces: usize,
    pub global_avg_delay_tenths: i64,
    pub total_savings_whole: i128,
}

/// A contractor value counts when it is neither blank nor the `Unknown`
/// placeholder.
pub open spec fn counted_contractor(r: ProcessedRecord) -> bool {
    !seq_is_blank(r.contractor@) && r.contractor@ != unknown_seq()
}

/// The grouping key for provinces.
pub open spec fn province_of() -> spec_fn(ProcessedRecord) -> Seq<char> {
    |r: ProcessedRecord| r.province@
}

/// The distinct counted contractor values, in order of first appearance.
pub open spec fn contractor_keys(s: Seq<ProcessedRecord>) -> Seq<Seq<char>> {
    distinct_keys(s.filter(|r: ProcessedRecord| counted_contractor(r)), contractor_of())
}

/// The distinct non-blank province values, in order of first appearance.
pub open spec fn province_keys(s: Seq<ProcessedRecord>) -> Seq<Seq<char>> {
    distinct_keys(s.filter(|r: ProcessedRecord| !seq_is_blank(r.province@)), province_of())
}

/// A summary holds exactly the dataset's aggregates.
pub open spec fn summary_matches(s: Seq<ProcessedRecord>, sm: SummaryStats) -> bool {
    &&& sm.total_projects == s.len()
    &&& sm.total_contractors == contractor_keys(s).len()
    &&& sm.total_provinces == province_keys(s).len()
    &&& sm.global_avg_delay_tenths as int == div_round_half(
        spec_average_scaled(delays_of(s)),
        100_000,
    )
    &&& sm.total_savings_whole as int == div_round_half(sum_of(savings_of(s)), 1_000_000)
}

/// Computes the dataset-wide summary.
pub fn generate_summary(records: &Vec<ProcessedRecord>) -> (sm: SummaryStats)
    requires
        all_wf(records@),
    ensures
        summary_matches(records@, sm),
{
    proof {
        reveal_strlit("Unknown");
        assert("Unknown"@ =~= unknown_seq());
    }
    let n: usize = records.len();
    // Distinct counted contractors.
    let mut seen_c: Vec<String> = Vec::new();
    let mut i: usize = 0;
    proof {
        broadcast use vstd::prelude::Seq::lemma_filter_push;

        assert(records@.subrange(0, 0) =~= Seq::<ProcessedRecord>::empty());
        assert(seen_c@.map_values(|x: String| x@) =~= contractor_keys(records@.subrange(0, 0)));
    }
    while i < n
        invariant
            i <= n,
            n == records@.len(),
            seen_c@.map_values(|x: String| x@) == contractor_keys(records@.subrange(0, i as int)),
        decreases n - i,
    {
        let rec = &records[i];
        proof {
            broadcast use vstd::prelude::Seq::lemma_filter_push;

            let ghost pre = records@.subrange(0, i as int);
            assert(records@.subrange(0, i + 1) =~= pre.push(records@[i as int]));
            let ghost kept = pre.filter(|r: ProcessedRecord| counted_contractor(r));
            if counted_contractor(records@[i as int]) {
                assert(records@.subrange(0, i + 1).filter(
                    |r: ProcessedRecord| counted_contractor(r),
                ) =~= kept.push(records@[i as int]));
                assert(kept.push(records@[i as int]).drop_last() =~= kept);
            } else {
                assert(records@.subrange(0, i + 1).filter(
                    |r: ProcessedRecord| counted_contractor(r),
                ) =~= kept);
            }
            reveal_strlit("Unknown");
            assert("Unknown"@ =~= unknown_seq());
        }
        if !is_blank(rec.contractor.as_str()) && !str_eq(rec.contractor.as_str(), "Unknown") {
            if !contains_str(&seen_c, rec.contractor.as_str()) {
                seen_c.push(rec.contractor.clone());
                proof {
                    assert(seen_c@.map_values(|x: String| x@) =~= contractor_keys(
                        records@.subrange(0, i + 1),
                    ));
                }
            }
        }
        i += 1;
    }
    // Distinct non-blank provinces.
    let mut seen_p: Vec<String> = Vec::new();
    let mut j: usize = 0;
    proof {
        broadcast use vstd::prelude::Seq::lemma_filter_push;

        assert(seen_p@.map_values(|x: String| x@) =~= province_keys(records@.subrange(0, 0)));
    }
    while j < n
        invariant
            j <= n,
            n == records@.len(),
            seen_p@.map_values(|x: String| x@) == province_keys(records@.subrange(0, j as int)),
        decreases n - j,
    {
        let rec = &records[j];
        proof {
            broadcast use vstd::prelude::Seq::lemma_filter_push;

            let ghost pre = records@.subrange(0, j as int);
            assert(records@.subrange(0, j + 1) =~= pre.push(records@[j as int]));
            let ghost kept = pre.filter(|r: ProcessedRecord| !seq_is_blank(r.province@));
            if !seq_is_blank(records@[j as int].province@) {
                assert(records@.subrange(0, j + 1).filter(
                    |r: ProcessedRecord| !seq_is_blank(r.province@),
                ) =~= kept.push(records@[j as int]));
                assert(kept.push(records@[j as int]).drop_last() =~= kept);
            } else {
                assert(records@.subrange(0, j + 1).filter(
                    |r: ProcessedRecord| !seq_is_blank(r.province@),
                ) =~= kept);
            }
        }
        if !is_blank(rec.province.as_str()) {
            if !contains_str(&seen_p, rec.province.as_str()) {
                seen_p.push(rec.province.clone());
                proof {
                    assert(seen_p@.map_values(|x: String| x@) =~= province_keys(
                        records@.subrange(0, j + 1),
                    ));
                }
            }
        }
        j += 1;
    }
    proof {
        assert(records@.subrange(0, n as int) =~= records@);
    }
    // Average delay, to tenths of a day.
    let delays = delays_vec(records);
    let avg = calculate_average_i64(&delays);
    proof {
        lemma_div_round_half_bound(avg as int, 100_000, 2_000_000_000_000_000);
    }
    let tenths = div_round_i128(avg as i128, 100_000);
    // Total savings, to whole units.
    let savings = savings_vec(records);
    let total = sum_bounded(&savings, 2 * FX_LIMIT);
    proof {
        let sl = savings@.len() as int;
        assert(sl * (2 * FX_LIMIT as int) < 0x20000000000000000000000000000000)
            by (nonlinear_arith)
            requires
                0 <= sl && sl < 0x10000000000000000,
        ;
        assert(-(sl * (2 * FX_LIMIT as int)) <= total as int <= sl * (2 * FX_LIMIT as int));
    }
    let whole = div_round_i128(total, 1_000_000);
    SummaryStats {
        total_projects: records.len(),
        total_contractors: seen_c.len(),
        total_provinces: seen_p.len(),
        global_avg_delay_tenths: tenths as i64,
        total_savings_whole: whole,
    }
}

} // verus!
