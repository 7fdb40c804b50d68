//! Regional efficiency report: one row per region, ranked by efficiency
//! score. The score is the region's median savings against its average
//! delay, scaled to a percentage and clamped to `[0, 100]`; a region whose
//! average delay is not positive scores zero (treating "no delay" as not
//! rankable rather than perfectly efficient; a variant policy scoring such
//! regions 100 was considered and rejected in favour of this one).

use vstd::prelude::*;
use vstd::relations::sorted_by;
use crate::format::spec_format_fixed;
use crate::metrics::{distinct_keys, key_group, contains_str, savings_of, budgets_of, delays_of, savings_vec, budgets_vec, delays_vec, count_over_30};
use crate::numbers::{FX_LIMIT, clamp_int, clamp_i128, div_round_half, div_round_i128};
use crate::records::{ProcessedRecord, all_wf, copy_record};
use crate::rows::{ReportRow, row_view};
use crate::stats::{sum_of, sum_bounded, spec_median, calculate_median, spec_average_scaled, calculate_average_i64, spec_percentage, calculate_percentage};
use crate::text::str_eq;
use vstd::string::*;

verus! {

/// Per-region aggregates, before formatting.
pub struct Report1Stat {
    pub region: String,
    pub main_island: String,
    pub total_budget: i128,
    pub median_savings: i64,
    pub avg_delay: i64,
    pub high_delay_pct: i64,
    pub efficiency_score: i64,
}

/// The grouping key of this report.
pub open spec fn region_of() -> spec_fn(ProcessedRecord) -> Seq<char> {
    |r: ProcessedRecord| r.region@
}

/// Efficiency: median savings over average delay as a clamped percentage;
/// zero when the average delay is not positive.
pub open spec fn spec_efficiency(med: int, avg: int) -> int {
    if avg > 0 {
        clamp_int(div_round_half(med * 100_000_000, avg), 0, 100_000_000)
    } else {
        0
    }
}

/// Computes the efficiency score from a median and an average delay.
pub fn efficiency_score(med: i64, avg: i64) -> (r: i64)
    requires
        -2 * FX_LIMIT <= med <= 2 * FX_LIMIT,
    ensures
        r as int == spec_efficiency(med as int, avg as int),
        0 <= r <= 100_000_000,
{
    if avg > 0 {
        let q = div_round_i128(med as i128 * 100_000_000, avg as i128);
        let c = clamp_i128(q, 0, 100_000_000);
        c as i64
    } else {
        0
    }
}

/// A stat row holds exactly the aggregates of its region's group.
pub open spec fn r1_stat_matches(s: Seq<ProcessedRecord>, st: Report1Stat) -> bool {
    let recs = key_group(s, region_of(), st.region@);
    &&& recs.len() > 0
    &&& st.main_island@ == recs[0].main_island@
    &&& st.total_budget as int == sum_of(budgets_of(recs))
    &&& st.median_savings as int == spec_median(savings_of(recs))
    &&& st.avg_delay as int == spec_average_scaled(delays_of(recs))
    &&& st.high_delay_pct as int == spec_percentage(
        delays_of(recs).filter(|d: i64| d > 30).len() as int,
        delays_of(recs).len() as int,
    )
    &&& st.efficiency_score as int == spec_efficiency(
        st.median_savings as int,
        st.avg_delay as int,
    )
}

/// Descending order by efficiency score.
pub open spec fn r1_order() -> spec_fn(Report1Stat, Report1Stat) -> bool {
    |a: Report1Stat, b: Report1Stat| a.efficiency_score >= b.efficiency_score
}

/// The formatted row of one regional stat, in header order.
pub open spec fn spec_r1_row(st: Report1Stat) -> Seq<(Seq<char>, Seq<char>)> {
    seq![
        ("Region"@, st.region@),
        ("MainIsland"@, st.main_island@),
        ("TotalBudget"@, spec_format_fixed(st.total_budget as int, 0)),
        ("MedianSavings"@, spec_format_fixed(st.median_savings as int, 2)),
        ("AvgDelay"@, spec_format_fixed(st.avg_delay as int, 2)),
        ("HighDelayPct"@, spec_format_fixed(st.high_delay_pct as int, 2)),
        ("EfficiencyScore"@, spec_format_fixed(st.efficiency_score as int, 2)),
    ]
}

/// The content of each row, in order.
pub open spec fn rows_views(rows: Seq<ReportRow>) -> Seq<Seq<(Seq<char>, Seq<char>)>> {
    rows.map_values(|r: ReportRow| row_view(r))
}

/// The rendered form of each regional stat, in order.
pub open spec fn r1_stat_rows(stats: Seq<Report1Stat>) -> Seq<Seq<(Seq<char>, Seq<char>)>> {
    stats.map_values(|st: Report1Stat| spec_r1_row(st))
}

/// The region of each stat, in order.
pub open spec fn r1_regions(stats: Seq<Report1Stat>) -> Seq<Seq<char>> {
    stats.map_values(|st: Report1Stat| st.region@)
}

/// A stat sequence covers the distinct regions exactly once each, every
/// entry holding its group's aggregates, ranked descending by efficiency
/// score (ties in no fixed order).
pub open spec fn r1_stats_ok(s: Seq<ProcessedRecord>, stats: Seq<Report1Stat>) -> bool {
    let keys = distinct_keys(s, region_of());
    &&& stats.len() == keys.len()
    &&& (forall|j: int| 0 <= j < stats.len() ==> r1_stat_matches(s, #[trigger] stats[j]))
    &&& (forall|j: int| 0 <= j < stats.len() ==> keys.contains((#[trigger] stats[j]).region@))
    &&& (forall|k: int| 0 <= k < keys.len() ==> r1_regions(stats).contains(#[trigger] keys[k]))
    &&& sorted_by(stats, r1_order())
}

/// What the regional report promises of its output rows.
pub open spec fn r1_output_ok(s: Seq<ProcessedRecord>, rows: Seq<ReportRow>) -> bool {
    exists|stats: Seq<Report1Stat>|
        #[trigger] r1_stats_ok(s, stats) && rows_views(rows) == r1_stat_rows(stats)
}

/// Every key that `distinct_keys` lists selects a non-empty group.
pub proof fn lemma_distinct_keys_present(
    s: Seq<ProcessedRecord>,
    keyf: spec_fn(ProcessedRecord) -> Seq<char>,
)
    ensures
        forall|j: int|
            0 <= j < distinct_keys(s, keyf).len() ==> key_group(
                s,
                keyf,
                #[trigger] distinct_keys(s, keyf)[j],
            ).len() > 0,
    decreases s.len(),
{
    broadcast use vstd::prelude::Seq::lemma_filter_push;

    if s.len() > 0 {
        let pre = s.drop_last();
        lemma_distinct_keys_present(pre, keyf);
        assert(s =~= pre.push(s.last()));
        assert forall|j: int| 0 <= j < distinct_keys(s, keyf).len() implies key_group(
            s,
            keyf,
            #[trigger] distinct_keys(s, keyf)[j],
        ).len() > 0 by {
            let k = distinct_keys(s, keyf)[j];
            let pred = |r: ProcessedRecord| keyf(r) == k;
            if keyf(s.last()) == k {
                assert(pre.push(s.last()).filter(pred) =~= pre.filter(pred).push(s.last()));
            } else {
                assert(pre.push(s.last()).filter(pred) =~= pre.filter(pred));
                assert(distinct_keys(pre, keyf).contains(k) && exists|t: int|
                    0 <= t < distinct_keys(pre, keyf).len() && distinct_keys(pre, keyf)[t] == k);
            }
        };
    }
}

/// Collects the distinct regions, in order of first appearance.
fn collect_keys_region(records: &Vec<ProcessedRecord>) -> (keys: Vec<String>)
    ensures
        keys@.map_values(|x: String| x@) == distinct_keys(records@, region_of()),
{
    let n: usize = records.len();
    let mut keys: Vec<String> = Vec::new();
    let mut i: usize = 0;
    proof {
        assert(records@.subrange(0, 0) =~= Seq::<ProcessedRecord>::empty());
        assert(keys@.map_values(|x: String| x@) =~= distinct_keys(
            records@.subrange(0, 0),
            region_of(),
        ));
    }
    while i < n
        invariant
            i <= n,
            n == records@.len(),
            keys@.map_values(|x: String| x@) == distinct_keys(
                records@.subrange(0, i as int),
                region_of(),
            ),
        decreases n - i,
    {
        let rec = &records[i];
        proof {
            let ghost pre = records@.subrange(0, i as int);
            assert(records@.subrange(0, i + 1) =~= pre.push(records@[i as int]));
            assert(records@.subrange(0, i + 1).drop_last() =~= pre);
        }
        if !contains_str(&keys, rec.region.as_str()) {
            keys.push(rec.region.clone());
            proof {
                assert(keys@.map_values(|x: String| x@) =~= distinct_keys(
                    records@.subrange(0, i + 1),
                    region_of(),
                ));
            }
        }
        i += 1;
    }
    proof {
        assert(records@.subrange(0, n as int) =~= records@);
    }
    keys
}

/// Collects the group of one region, in record order.
fn collect_group_region(records: &Vec<ProcessedRecord>, key: &String) -> (g: Vec<ProcessedRecord>)
    requires
        all_wf(records@),
    ensures
        g@ == key_group(records@, region_of(), key@),
        all_wf(g@),
{
    let n: usize = records.len();
    let mut g: Vec<ProcessedRecord> = Vec::new();
    let mut i: usize = 0;
    proof {
        broadcast use vstd::prelude::Seq::lemma_filter_push;

        assert(records@.subrange(0, 0) =~= Seq::<ProcessedRecord>::empty());
        assert(g@ =~= key_group(records@.subrange(0, 0), region_of(), key@));
    }
    while i < n
        invariant
            i <= n,
            n == records@.len(),
            all_wf(records@),
            g@ == key_group(records@.subrange(0, i as int), region_of(), key@),
            all_wf(g@),
        decreases n - i,
    {
        let rec = &records[i];
        proof {
            broadcast use vstd::prelude::Seq::lemma_filter_push;

            let ghost pre = records@.subrange(0, i as int);
            assert(records@.subrange(0, i + 1) =~= pre.push(records@[i as int]));
        }
        if str_eq(rec.region.as_str(), key.as_str()) {
            let c = copy_record(rec);
            g.push(c);
        }
        i += 1;
    }
    proof {
        assert(records@.subrange(0, n as int) =~= records@);
    }
    g
}

/// Sorts regional stats descending by efficiency score.
fn sort_r1(stats: Vec<Report1Stat>) -> (out: Vec<Report1Stat>)
    ensures
        sorted_by(out@, r1_order()),
        out@.to_multiset() == stats@.to_multiset(),
{
    let ghost orig = stats@;
    let n: usize = stats.len();
    let mut rem = stats;
    let mut out: Vec<Report1Stat> = Vec::new();
    let mut i: usize = 0;
    proof {
        broadcast use vstd::prelude::Seq::to_multiset_ensures;

        assert(rem@ =~= orig.subrange(0, n as int));
        assert(orig.subrange(0, 0) =~= Seq::<Report1Stat>::empty());
        assert(out@.to_multiset() =~= orig.subrange(0, 0).to_multiset());
    }
    while i < n
        invariant
            i <= n,
            n == orig.len(),
            i + rem@.len() == n,
            rem@ == orig.subrange(i as int, n as int),
            sorted_by(out@, r1_order()),
            out@.to_multiset() == orig.subrange(0, i as int).to_multiset(),
            out@.len() == i,
        decreases n - i,
    {
        let st = rem.remove(0);
        proof {
            assert(st == orig[i as int]);
            assert(rem@ =~= orig.subrange(i + 1, n as int));
        }
        let mut pos: usize = 0;
        while pos < out.len() && out[pos].efficiency_score >= st.efficiency_score
            invariant
                pos <= out@.len(),
                forall|k: int| 0 <= k < pos ==> out@[k].efficiency_score >= st.efficiency_score,
            decreases out@.len() - pos,
        {
            pos += 1;
        }
        let ghost before = out@;
        let ghost v = st;
        out.insert(pos, st);
        proof {
            broadcast use vstd::prelude::Seq::to_multiset_ensures;
            broadcast use vstd::multiset::group_multiset_axioms;

            let take = before.subrange(0, pos as int);
            let skip = before.subrange(pos as int, before.len() as int);
            assert(out@ =~= take.push(v) + skip);
            assert(before =~= take + skip);
            vstd::seq_lib::lemma_multiset_commutative(take.push(v), skip);
            vstd::seq_lib::lemma_multiset_commutative(take, skip);
            take.to_multiset_ensures();
            assert(take.push(v).to_multiset() =~= take.to_multiset().insert(v));
            assert(out@.to_multiset() =~= before.to_multiset().insert(v));
            assert(orig.subrange(0, i + 1) =~= orig.subrange(0, i as int).push(v));
            orig.subrange(0, i as int).to_multiset_ensures();
            assert(orig.subrange(0, i as int).push(v).to_multiset() =~= orig.subrange(
                0,
                i as int,
            ).to_multiset().insert(v));
            let p = pos as int;
            assert forall|x: int, y: int| 0 <= x <= y < out@.len() implies #[trigger] r1_order()(
                out@[x],
                out@[y],
            ) by {
                if y < p {
                    assert(r1_order()(before[x], before[y]));
                } else if y == p {
                    if x < p {
                        assert(before[x].efficiency_score >= v.efficiency_score);
                    }
                } else if x < p {
                    assert(r1_order()(before[x], before[y - 1]));
                } else if x == p {
                    assert(v.efficiency_score > before[p].efficiency_score);
                    assert(r1_order()(before[p], before[y - 1]));
                } else {
                    assert(r1_order()(before[x - 1], before[y - 1]));
                }
            };
            assert(sorted_by(out@, r1_order()));
        }
        i += 1;
    }
    proof {
        assert(orig.subrange(0, n as int) =~= orig);
    }
    out
}

/// Renders one regional stat as a report row.
fn r1_row(st: &Report1Stat) -> (row: ReportRow)
    requires
        -0x20000000000000000000000000000000 < st.total_budget
            < 0x20000000000000000000000000000000,
    ensures
        row_view(row) == spec_r1_row(*st),
{
    let mut cols: Vec<(String, String)> = Vec::new();
    cols.push((String::from_str("Region"), st.region.clone()));
    cols.push((String::from_str("MainIsland"), st.main_island.clone()));
    cols.push((String::from_str("TotalBudget"), crate::format::format_large_number(st.total_budget)));
    cols.push((String::from_str("MedianSavings"), crate::format::format_number(st.median_savings as i128, 2)));
    cols.push((String::from_str("AvgDelay"), crate::format::format_number(st.avg_delay as i128, 2)));
    cols.push((String::from_str("HighDelayPct"), crate::format::format_number(st.high_delay_pct as i128, 2)));
    cols.push((String::from_str("EfficiencyScore"), crate::format::format_number(st.efficiency_score as i128, 2)));
    let row = ReportRow { cols };
    proof {
        assert(row_view(row) =~= spec_r1_row(*st));
    }
    row
}

/// Builds the regional efficiency report: one row per region, ranked
/// descending by efficiency score.
pub fn generate_report1(records: &Vec<ProcessedRecord>) -> (rows: Vec<ReportRow>)
    requires
        all_wf(records@),
    ensures
        r1_output_ok(records@, rows@),
        rows@.len() == distinct_keys(records@, region_of()).len(),
{
    let ghost keys_spec = distinct_keys(records@, region_of());
    let keys = collect_keys_region(records);
    proof {
        lemma_distinct_keys_present(records@, region_of());
    }
    let nk: usize = keys.len();
    let mut stats: Vec<Report1Stat> = Vec::new();
    let mut j: usize = 0;
    while j < nk
        invariant
            j <= nk,
            nk == keys@.len(),
            all_wf(records@),
            keys@.map_values(|x: String| x@) == keys_spec,
            keys_spec == distinct_keys(records@, region_of()),
            forall|t: int|
                0 <= t < keys_spec.len() ==> key_group(
                    records@,
                    region_of(),
                    #[trigger] keys_spec[t],
                ).len() > 0,
            stats@.len() == j,
            forall|t: int| 0 <= t < j ==> r1_stat_matches(records@, #[trigger] stats@[t]),
            forall|t: int| 0 <= t < j ==> (#[trigger] stats@[t]).region@ == keys_spec[t],
            forall|t: int|
                0 <= t < j ==> -0x20000000000000000000000000000000 < (
                #[trigger] stats@[t]).total_budget < 0x20000000000000000000000000000000,
        decreases nk - j,
    {
        let key = &keys[j];
        proof {
            assert(keys@.map_values(|x: String| x@)[j as int] == key@);
        }
        let group = collect_group_region(records, key);
        let budgets = budgets_vec(&group);
        let bl: usize = budgets.len();
        let total_budget = sum_bounded(&budgets, FX_LIMIT);
        proof {
            assert(bl as int * (FX_LIMIT as int) < 0x20000000000000000000000000000000)
                by (nonlinear_arith)
                requires
                    0 <= (bl as int) && (bl as int) < 0x10000000000000000,
            ;
        }
        let savings = savings_vec(&group);
        let median_savings = calculate_median(&savings);
        let delays = delays_vec(&group);
        let avg_delay = calculate_average_i64(&delays);
        let high = count_over_30(&delays);
        let high_delay_pct = calculate_percentage(high, delays.len());
        let eff = efficiency_score(median_savings, avg_delay);
        let st = Report1Stat {
            region: key.clone(),
            main_island: group[0].main_island.clone(),
            total_budget,
            median_savings,
            avg_delay,
            high_delay_pct,
            efficiency_score: eff,
        };
        proof {
            assert(r1_stat_matches(records@, st));
        }
        stats.push(st);
        j += 1;
    }
    let ghost pre_sort = stats@;
    let sorted = sort_r1(stats);
    let ns: usize = sorted.len();
    let mut rows: Vec<ReportRow> = Vec::new();
    let mut t: usize = 0;
    proof {
        broadcast use vstd::prelude::Seq::to_multiset_ensures;

        assert(sorted@.to_multiset().len() == pre_sort.to_multiset().len());
        assert forall|k: int|
            0 <= k < sorted@.len() implies -0x20000000000000000000000000000000 < (
        #[trigger] sorted@[k]).total_budget < 0x20000000000000000000000000000000 by {
            assert(pre_sort.to_multiset().contains(sorted@[k]));
            let k0 = choose|k0: int| 0 <= k0 < pre_sort.len() && pre_sort[k0] == sorted@[k];
        };
    }
    while t < ns
        invariant
            t <= ns,
            ns == sorted@.len(),
            forall|k: int|
                0 <= k < sorted@.len() ==> -0x20000000000000000000000000000000 < (
                #[trigger] sorted@[k]).total_budget < 0x20000000000000000000000000000000,
            rows@.len() == t,
            forall|k: int| 0 <= k < t ==> row_view(#[trigger] rows@[k]) == spec_r1_row(sorted@[k]),
        decreases ns - t,
    {
        let row = r1_row(&sorted[t]);
        rows.push(row);
        t += 1;
    }
    proof {
        broadcast use vstd::prelude::Seq::to_multiset_ensures;

        let stats_w = sorted@;
        assert(stats_w.len() == keys_spec.len());
        assert forall|x: int| 0 <= x < stats_w.len() implies r1_stat_matches(
            records@,
            #[trigger] stats_w[x],
        ) && keys_spec.contains(stats_w[x].region@) by {
            assert(pre_sort.to_multiset().contains(stats_w[x]));
            let k0 = choose|k0: int| 0 <= k0 < pre_sort.len() && pre_sort[k0] == stats_w[x];
            assert(r1_stat_matches(records@, pre_sort[k0]));
            assert(pre_sort[k0].region@ == keys_spec[k0]);
        };
        assert forall|k: int| 0 <= k < keys_spec.len() implies r1_regions(stats_w).contains(
            #[trigger] keys_spec[k],
        ) by {
            assert(pre_sort[k].region@ == keys_spec[k]);
            assert(stats_w.to_multiset().contains(pre_sort[k]));
            let j2 = choose|j2: int| 0 <= j2 < stats_w.len() && stats_w[j2] == pre_sort[k];
            assert(r1_regions(stats_w)[j2] == keys_spec[k]);
        };
        assert(r1_stats_ok(records@, stats_w));
        assert(rows_views(rows@) =~= r1_stat_rows(stats_w));
        assert(r1_output_ok(records@, rows@));
    }
    rows
}

} // verus!
