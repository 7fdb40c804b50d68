//! Contractor ranking report: contractors with at least five projects,
//! ranked descending by total contract cost, truncated to the top fifteen
//! and numbered from one. The reliability index combines delay performance
//! with the savings ratio, clamped to `[0, 100]`.

use vstd::prelude::*;
use vstd::relations::sorted_by;
use vstd::string::*;
use crate::format::spec_format_fixed;
use crate::metrics::{distinct_keys, key_group, contains_str, savings_of, costs_of, delays_of, savings_vec, costs_vec, delays_vec};
use crate::numbers::{FX_LIMIT, clamp_int, clamp_i128, div_round_half, div_round_i128};
use crate::records::{ProcessedRecord, all_wf, copy_record, DELAY_LIMIT};
use crate::rows::{ReportRow, row_view};
use crate::report1::rows_views;
use crate::stats::{sum_of, sum_bounded, spec_average_scaled, calculate_average_i64};
use crate::text::{str_eq, dec_digits_of, usize_to_string};

verus! {

/// The largest dataset the contractor report accepts; it keeps the
/// reliability arithmetic inside machine integers.
pub const MAX_REPORT_RECORDS: usize = 1_000_000;

/// How many ranked contractors the report keeps.
pub const TOP_CONTRACTORS: usize = 15;

/// Per-contractor aggregates, before formatting.
pub struct Report2Stat {
    pub contractor: String,
    pub total_cost: i128,
    pub num_projects: usize,
    pub avg_delay: i64,
    pub total_savings: i128,
    pub reliability_index: i64,
}

/// The grouping key of this report.
pub open spec fn contractor_of() -> spec_fn(ProcessedRecord) -> Seq<char> {
    |r: ProcessedRecord| r.contractor@
}

/// Reliability: the delay factor `max(0, 1 - avg_delay/90)` times the
/// savings ratio, as a percentage clamped to `[0, 100]`; zero when the
/// total cost is not positive. The quotient is taken once, at a granularity
/// of one ten-thousandth of a point.
pub open spec fn spec_reliability(d: int, s: int, c: int) -> int {
    if c <= 0 {
        0
    } else {
        let n = if 90_000_000 - d > 0 {
            90_000_000 - d
        } else {
            0
        };
        clamp_int(div_round_half(n * s, 90 * c), 0, 1_000_000) * 100
    }
}

/// Computes the reliability index of one contractor.
pub fn reliability_index(avg_delay: i64, total_savings: i128, total_cost: i128) -> (r: i64)
    requires
        -DELAY_LIMIT * 1_000_000 <= avg_delay <= DELAY_LIMIT * 1_000_000,
        -200_000_000_000_000_000_000_000 <= total_savings <= 200_000_000_000_000_000_000_000,
        -200_000_000_000_000_000_000_000 <= total_cost <= 200_000_000_000_000_000_000_000,
    ensures
        r as int == spec_reliability(avg_delay as int, total_savings as int, total_cost as int),
        0 <= r <= 100_000_000,
{
    if total_cost <= 0 {
        return 0;
    }
    let nf: i128 = if 90_000_000 - (avg_delay as i128) > 0 {
        90_000_000 - (avg_delay as i128)
    } else {
        0
    };
    proof {
        assert(nf * total_savings <= 201_000_000_000_000 * 200_000_000_000_000_000_000_000
            && -(201_000_000_000_000 * 200_000_000_000_000_000_000_000) <= nf * total_savings)
            by (nonlinear_arith)
            requires
                0 <= nf <= 201_000_000_000_000,
                -200_000_000_000_000_000_000_000 <= total_savings
                    <= 200_000_000_000_000_000_000_000,
        ;
        assert(201_000_000_000_000 * 200_000_000_000_000_000_000_000
            < 0x20000000000000000000000000000000);
    }
    let q = div_round_i128(nf * total_savings, 90 * total_cost);
    let c = clamp_i128(q, 0, 1_000_000);
    (c * 100) as i64
}

/// The risk label a reliability index earns.
pub open spec fn spec_risk(rel: int) -> Seq<char> {
    if rel < 50_000_000 {
        "High Risk"@
    } else {
        "Low Risk"@
    }
}

/// The qualifying contractors: distinct, with at least five projects.
pub open spec fn r2_keys(s: Seq<ProcessedRecord>) -> Seq<Seq<char>> {
    distinct_keys(s, contractor_of()).filter(
        |k: Seq<char>| key_group(s, contractor_of(), k).len() >= 5,
    )
}

/// A stat row holds exactly the aggregates of its contractor's group.
pub open spec fn r2_stat_matches(s: Seq<ProcessedRecord>, st: Report2Stat) -> bool {
    let recs = key_group(s, contractor_of(), st.contractor@);
    &&& recs.len() >= 5
    &&& st.num_projects == recs.len()
    &&& st.total_cost as int == sum_of(costs_of(recs))
    &&& st.total_savings as int == sum_of(savings_of(recs))
    &&& st.avg_delay as int == spec_average_scaled(delays_of(recs))
    &&& st.reliability_index as int == spec_reliability(
        st.avg_delay as int,
        st.total_savings as int,
        st.total_cost as int,
    )
}

/// Descending order by total cost.
pub open spec fn r2_order() -> spec_fn(Report2Stat, Report2Stat) -> bool {
    |a: Report2Stat, b: Report2Stat| a.total_cost >= b.total_cost
}

/// The formatted row of one ranked contractor, in header order.
pub open spec fn spec_r2_row(rank: int, st: Report2Stat) -> Seq<(Seq<char>, Seq<char>)> {
    seq![
        ("Rank"@, dec_digits_of(rank as nat)),
        ("Contractor"@, st.contractor@),
        ("TotalCost"@, spec_format_fixed(st.total_cost as int, 0)),
        ("NumProjects"@, dec_digits_of(st.num_projects as nat)),
        ("AvgDelay"@, spec_format_fixed(st.avg_delay as int, 2)),
        ("TotalSavings"@, spec_format_fixed(st.total_savings as int, 0)),
        ("ReliabilityIndex"@, spec_format_fixed(st.reliability_index as int, 2)),
        ("RiskFlag"@, spec_risk(st.reliability_index as int)),
    ]
}

/// The ranked rendering of the leading stats: position `i` gets rank `i + 1`.
pub open spec fn r2_stat_rows(stats: Seq<Report2Stat>) -> Seq<Seq<(Seq<char>, Seq<char>)>> {
    stats.map(|i: int, st: Report2Stat| spec_r2_row(i + 1, st))
}

/// The contractor of each stat, in order.
pub open spec fn r2_contractors(stats: Seq<Report2Stat>) -> Seq<Seq<char>> {
    stats.map_values(|st: Report2Stat| st.contractor@)
}

/// A stat sequence covers the qualifying contractors exactly once each,
/// every entry holding its group's aggregates, ranked descending by total
/// cost (ties in no fixed order).
pub open spec fn r2_stats_ok(s: Seq<ProcessedRecord>, stats: Seq<Report2Stat>) -> bool {
    let keys = r2_keys(s);
    &&& stats.len() == keys.len()
    &&& (forall|j: int| 0 <= j < stats.len() ==> r2_stat_matches(s, #[trigger] stats[j]))
    &&& (forall|j: int|
        0 <= j < stats.len() ==> keys.contains((#[trigger] stats[j]).contractor@))
    &&& (forall|k: int| 0 <= k < keys.len() ==> r2_contractors(stats).contains(#[trigger] keys[k]))
    &&& sorted_by(stats, r2_order())
}

/// What the contractor report promises: the qualifying stats, ranked, with
/// only the leading fifteen rendered, numbered from one.
pub open spec fn r2_output_ok(s: Seq<ProcessedRecord>, rows: Seq<ReportRow>) -> bool {
    exists|stats: Seq<Report2Stat>|
        {
            &&& #[trigger] r2_stats_ok(s, stats)
            &&& rows_views(rows) == r2_stat_rows(
                stats.take(
                    if stats.len() <= 15 {
                        stats.len() as int
                    } else {
                        15
                    },
                ),
            )
        }
}

/// Collects the distinct contractors, in order of first appearance.
fn collect_keys_contractor(records: &Vec<ProcessedRecord>) -> (keys: Vec<String>)
    ensures
        keys@.map_values(|x: String| x@) == distinct_keys(records@, contractor_of()),
{
    let n: usize = records.len();
    let mut keys: Vec<String> = Vec::new();
    let mut i: usize = 0;
    proof {
        assert(records@.subrange(0, 0) =~= Seq::<ProcessedRecord>::empty());
        assert(keys@.map_values(|x: String| x@) =~= distinct_keys(
            records@.subrange(0, 0),
            contractor_of(),
        ));
    }
    while i < n
        invariant
            i <= n,
            n == records@.len(),
            keys@.map_values(|x: String| x@) == distinct_keys(
                records@.subrange(0, i as int),
                contractor_of(),
            ),
        decreases n - i,
    {
        let rec = &records[i];
        proof {
            let ghost pre = records@.subrange(0, i as int);
            assert(records@.subrange(0, i + 1) =~= pre.push(records@[i as int]));
            assert(records@.subrange(0, i + 1).drop_last() =~= pre);
        }
        if !contains_str(&keys, rec.contractor.as_str()) {
            keys.push(rec.contractor.clone());
            proof {
                assert(keys@.map_values(|x: String| x@) =~= distinct_keys(
                    records@.subrange(0, i + 1),
                    contractor_of(),
                ));
            }
        }
        i += 1;
    }
    proof {
        assert(records@.subrange(0, n as int) =~= records@);
    }
    keys
}

/// Collects the group of one contractor, in record order.
fn collect_group_contractor(records: &Vec<ProcessedRecord>, key: &String) -> (g: Vec<
    ProcessedRecord,
>)
    requires
        all_wf(records@),
    ensures
        g@ == key_group(records@, contractor_of(), key@),
        all_wf(g@),
        g@.len() <= records@.len(),
{
    let n: usize = records.len();
    let mut g: Vec<ProcessedRecord> = Vec::new();
    let mut i: usize = 0;
    proof {
        broadcast use vstd::prelude::Seq::lemma_filter_push;

        assert(records@.subrange(0, 0) =~= Seq::<ProcessedRecord>::empty());
        assert(g@ =~= key_group(records@.subrange(0, 0), contractor_of(), key@));
    }
    while i < n
        invariant
            i <= n,
            n == records@.len(),
            all_wf(records@),
            g@ == key_group(records@.subrange(0, i as int), contractor_of(), key@),
            all_wf(g@),
            g@.len() <= i,
        decreases n - i,
    {
        let rec = &records[i];
        proof {
            broadcast use vstd::prelude::Seq::lemma_filter_push;

            let ghost pre = records@.subrange(0, i as int);
            assert(records@.subrange(0, i + 1) =~= pre.push(records@[i as int]));
        }
        if str_eq(rec.contractor.as_str(), key.as_str()) {
            let c = copy_record(rec);
            g.push(c);
        }
        i += 1;
    }
    proof {
        assert(records@.subrange(0, n as int) =~= records@);
    }
    g
}

/// Sorts contractor stats descending by total cost.
fn sort_r2(stats: Vec<Report2Stat>) -> (out: Vec<Report2Stat>)
    ensures
        sorted_by(out@, r2_order()),
        out@.to_multiset() == stats@.to_multiset(),
{
    let ghost orig = stats@;
    let n: usize = stats.len();
    let mut rem = stats;
    let mut out: Vec<Report2Stat> = Vec::new();
    let mut i: usize = 0;
    proof {
        broadcast use vstd::prelude::Seq::to_multiset_ensures;

        assert(rem@ =~= orig.subrange(0, n as int));
        assert(orig.subrange(0, 0) =~= Seq::<Report2Stat>::empty());
        assert(out@.to_multiset() =~= orig.subrange(0, 0).to_multiset());
    }
    while i < n
        invariant
            i <= n,
            n == orig.len(),
            i + rem@.len() == n,
            rem@ == orig.subrange(i as int, n as int),
            sorted_by(out@, r2_order()),
            out@.to_multiset() == orig.subrange(0, i as int).to_multiset(),
            out@.len() == i,
        decreases n - i,
    {
        let st = rem.remove(0);
        proof {
            assert(st == orig[i as int]);
            assert(rem@ =~= orig.subrange(i + 1, n as int));
        }
        let mut pos: usize = 0;
        while pos < out.len() && out[pos].total_cost >= st.total_cost
            invariant
                pos <= out@.len(),
                forall|k: int| 0 <= k < pos ==> out@[k].total_cost >= st.total_cost,
            decreases out@.len() - pos,
        {
            pos += 1;
        }
        let ghost before = out@;
        let ghost v = st;
        out.insert(pos, st);
        proof {
            broadcast use vstd::prelude::Seq::to_multiset_ensures;
            broadcast use vstd::multiset::group_multiset_axioms;

            let take = before.subrange(0, pos as int);
            let skip = before.subrange(pos as int, before.len() as int);
            assert(out@ =~= take.push(v) + skip);
            assert(before =~= take + skip);
            vstd::seq_lib::lemma_multiset_commutative(take.push(v), skip);
            vstd::seq_lib::lemma_multiset_commutative(take, skip);
            take.to_multiset_ensures();
            assert(take.push(v).to_multiset() =~= take.to_multiset().insert(v));
            assert(out@.to_multiset() =~= before.to_multiset().insert(v));
            assert(orig.subrange(0, i + 1) =~= orig.subrange(0, i as int).push(v));
            orig.subrange(0, i as int).to_multiset_ensures();
            assert(orig.subrange(0, i as int).push(v).to_multiset() =~= orig.subrange(
                0,
                i as int,
            ).to_multiset().insert(v));
            let p = pos as int;
            assert forall|x: int, y: int| 0 <= x <= y < out@.len() implies #[trigger] r2_order()(
                out@[x],
                out@[y],
            ) by {
                if y < p {
                    assert(r2_order()(before[x], before[y]));
                } else if y == p {
                    if x < p {
                        assert(before[x].total_cost >= v.total_cost);
                    }
                } else if x < p {
                    assert(r2_order()(before[x], before[y - 1]));
                } else if x == p {
                    assert(v.total_cost > before[p].total_cost);
                    assert(r2_order()(before[p], before[y - 1]));
                } else {
                    assert(r2_order()(before[x - 1], before[y - 1]));
                }
            };
            assert(sorted_by(out@, r2_order()));
        }
        i += 1;
    }
    proof {
        assert(orig.subrange(0, n as int) =~= orig);
    }
    out
}

/// Renders one ranked contractor as a report row.
fn r2_row(rank: usize, st: &Report2Stat) -> (row: ReportRow)
    requires
        rank >= 1,
        -0x20000000000000000000000000000000 < st.total_cost < 0x20000000000000000000000000000000,
        -0x20000000000000000000000000000000 < st.total_savings
            < 0x20000000000000000000000000000000,
    ensures
        row_view(row) == spec_r2_row(rank as int, *st),
{
    proof {
        reveal_strlit("High Risk");
        reveal_strlit("Low Risk");
    }
    let mut cols: Vec<(String, String)> = Vec::new();
    cols.push((String::from_str("Rank"), usize_to_string(rank)));
    cols.push((String::from_str("Contractor"), st.contractor.clone()));
    cols.push((String::from_str("TotalCost"), crate::format::format_large_number(st.total_cost)));
    cols.push((String::from_str("NumProjects"), usize_to_string(st.num_projects)));
    cols.push((String::from_str("AvgDelay"), crate::format::format_number(st.avg_delay as i128, 2)));
    cols.push((String::from_str("TotalSavings"), crate::format::format_large_number(st.total_savings)));
    cols.push((String::from_str("ReliabilityIndex"), crate::format::format_number(st.reliability_index as i128, 2)));
    let risk = if st.reliability_index < 50_000_000 {
        String::from_str("High Risk")
    } else {
        String::from_str("Low Risk")
    };
    cols.push((String::from_str("RiskFlag"), risk));
    let row = ReportRow { cols };
    proof {
        assert(row_view(row) =~= spec_r2_row(rank as int, *st));
    }
    row
}

/// Builds the contractor ranking report: qualifying contractors ranked
/// descending by total cost, the top fifteen numbered from one.
pub fn generate_report2(records: &Vec<ProcessedRecord>) -> (rows: Vec<ReportRow>)
    requires
        all_wf(records@),
        records@.len() <= MAX_REPORT_RECORDS,
    ensures
        r2_output_ok(records@, rows@),
{
    let ghost keys_spec = r2_keys(records@);
    let all_keys = collect_keys_contractor(records);
    let na: usize = all_keys.len();
    // Keep only contractors with at least five projects.
    let mut keys: Vec<String> = Vec::new();
    let mut a: usize = 0;
    proof {
        broadcast use vstd::prelude::Seq::lemma_filter_push;

        let ghost akv = all_keys@.map_values(|x: String| x@);
        assert(akv.subrange(0, 0) =~= Seq::<Seq<char>>::empty());
        assert(keys@.map_values(|x: String| x@) =~= akv.subrange(0, 0).filter(
            |k: Seq<char>| key_group(records@, contractor_of(), k).len() >= 5,
        ));
    }
    while a < na
        invariant
            a <= na,
            na == all_keys@.len(),
            all_wf(records@),
            all_keys@.map_values(|x: String| x@) == distinct_keys(records@, contractor_of()),
            keys@.map_values(|x: String| x@) == all_keys@.map_values(
                |x: String| x@,
            ).subrange(0, a as int).filter(
                |k: Seq<char>| key_group(records@, contractor_of(), k).len() >= 5,
            ),
        decreases na - a,
    {
        let key = &all_keys[a];
        proof {
            broadcast use vstd::prelude::Seq::lemma_filter_push;

            let ghost akv = all_keys@.map_values(|x: String| x@);
            assert(akv.subrange(0, a + 1) =~= akv.subrange(0, a as int).push(akv[a as int]));
            assert(akv[a as int] == key@);
        }
        let group = collect_group_contractor(records, key);
        if group.len() >= 5 {
            keys.push(key.clone());
        }
        a += 1;
    }
    proof {
        let ghost akv = all_keys@.map_values(|x: String| x@);
        assert(akv.subrange(0, na as int) =~= akv);
        assert(keys@.map_values(|x: String| x@) == keys_spec);
    }
    // Aggregate each qualifying contractor.
    let nk: usize = keys.len();
    let mut stats: Vec<Report2Stat> = Vec::new();
    let mut j: usize = 0;
    while j < nk
        invariant
            j <= nk,
            nk == keys@.len(),
            all_wf(records@),
            records@.len() <= MAX_REPORT_RECORDS,
            keys@.map_values(|x: String| x@) == keys_spec,
            keys_spec == r2_keys(records@),
            stats@.len() == j,
            forall|t: int| 0 <= t < j ==> r2_stat_matches(records@, #[trigger] stats@[t]),
            forall|t: int| 0 <= t < j ==> (#[trigger] stats@[t]).contractor@ == keys_spec[t],
            forall|t: int|
                0 <= t < j ==> -200_000_000_000_000_000_000_000 <= (
                #[trigger] stats@[t]).total_cost <= 200_000_000_000_000_000_000_000
                    && -200_000_000_000_000_000_000_000 <= stats@[t].total_savings
                    <= 200_000_000_000_000_000_000_000,
        decreases nk - j,
    {
        let key = &keys[j];
        proof {
            assert(keys@.map_values(|x: String| x@)[j as int] == key@);
            broadcast use vstd::prelude::Seq::lemma_filter_pred;

            assert(key_group(records@, contractor_of(), key@).len() >= 5);
        }
        let group = collect_group_contractor(records, key);
        let costs = costs_vec(&group);
        let total_cost = sum_bounded(&costs, FX_LIMIT);
        let savings = savings_vec(&group);
        let total_savings = sum_bounded(&savings, 2 * FX_LIMIT);
        let delays = delays_vec(&group);
        let avg_delay = calculate_average_i64(&delays);
        proof {
            assert(costs@.len() as int * (FX_LIMIT as int) <= 200_000_000_000_000_000_000_000)
                by (nonlinear_arith)
                requires
                    0 <= (costs@.len() as int) && (costs@.len() as int) <= 1_000_000,
            ;
            assert(savings@.len() as int * (2 * FX_LIMIT as int)
                <= 200_000_000_000_000_000_000_000) by (nonlinear_arith)
                requires
                    0 <= (savings@.len() as int) && (savings@.len() as int) <= 1_000_000,
            ;
        }
        let rel = reliability_index(avg_delay, total_savings, total_cost);
        let st = Report2Stat {
            contractor: key.clone(),
            total_cost,
            num_projects: group.len(),
            avg_delay,
            total_savings,
            reliability_index: rel,
        };
        proof {
            assert(r2_stat_matches(records@, st));
        }
        stats.push(st);
        j += 1;
    }
    let ghost pre_sort = stats@;
    let sorted = sort_r2(stats);
    proof {
        broadcast use vstd::prelude::Seq::to_multiset_ensures;

        assert(sorted@.to_multiset().len() == pre_sort.to_multiset().len());
        assert forall|k: int|
            0 <= k < sorted@.len() implies -200_000_000_000_000_000_000_000 <= (
        #[trigger] sorted@[k]).total_cost <= 200_000_000_000_000_000_000_000
            && -200_000_000_000_000_000_000_000 <= sorted@[k].total_savings
            <= 200_000_000_000_000_000_000_000 by {
            assert(pre_sort.to_multiset().contains(sorted@[k]));
            let k0 = choose|k0: int| 0 <= k0 < pre_sort.len() && pre_sort[k0] == sorted@[k];
        };
    }
    let ghost stats_w = sorted@;
    let keep: usize = if sorted.len() <= TOP_CONTRACTORS {
        sorted.len()
    } else {
        TOP_CONTRACTORS
    };
    let mut rows: Vec<ReportRow> = Vec::new();
    let mut t: usize = 0;
    while t < keep
        invariant
            t <= keep,
            keep <= sorted@.len(),
            sorted@ == stats_w,
            forall|k: int|
                0 <= k < sorted@.len() ==> -200_000_000_000_000_000_000_000 <= (
                #[trigger] sorted@[k]).total_cost <= 200_000_000_000_000_000_000_000
                    && -200_000_000_000_000_000_000_000 <= sorted@[k].total_savings
                    <= 200_000_000_000_000_000_000_000,
            rows@.len() == t,
            forall|k: int|
                0 <= k < t ==> row_view(#[trigger] rows@[k]) == spec_r2_row(k + 1, sorted@[k]),
        decreases keep - t,
    {
        let row = r2_row(t + 1, &sorted[t]);
        rows.push(row);
        t += 1;
    }
    proof {
        broadcast use vstd::prelude::Seq::to_multiset_ensures;

        assert(stats_w.len() == keys_spec.len());
        assert forall|x: int| 0 <= x < stats_w.len() implies r2_stat_matches(
            records@,
            #[trigger] stats_w[x],
        ) && keys_spec.contains(stats_w[x].contractor@) by {
            assert(pre_sort.to_multiset().contains(stats_w[x]));
            let k0 = choose|k0: int| 0 <= k0 < pre_sort.len() && pre_sort[k0] == stats_w[x];
            assert(r2_stat_matches(records@, pre_sort[k0]));
            assert(pre_sort[k0].contractor@ == keys_spec[k0]);
        };
        assert forall|k: int| 0 <= k < keys_spec.len() implies r2_contractors(stats_w).contains(
            #[trigger] keys_spec[k],
        ) by {
            assert(pre_sort[k].contractor@ == keys_spec[k]);
            assert(stats_w.to_multiset().contains(pre_sort[k]));
            let j2 = choose|j2: int| 0 <= j2 < stats_w.len() && stats_w[j2] == pre_sort[k];
            assert(r2_contractors(stats_w)[j2] == keys_spec[k]);
        };
        assert(r2_stats_ok(records@, stats_w));
        assert(rows_views(rows@) =~= r2_stat_rows(
            stats_w.take(
                if stats_w.len() <= 15 {
                    stats_w.len() as int
                } else {
                    15
                },
            ),
        ));
        assert(r2_output_ok(records@, rows@));
    }
    rows
}

} // verus!
