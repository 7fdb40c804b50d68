//! Annual type-trend report: one row per (funding year, type of work) pair,
//! ordered by year ascending and, within a year, by average savings
//! descending. Year-over-year change compares a type's average savings to
//! its own baseline year's average.

use vstd::prelude::*;
use vstd::relations::sorted_by;
use vstd::string::*;
use crate::format::spec_format_fixed;
use crate::metrics::{savings_of, savings_vec, count_negative};
use crate::numbers::{FX_LIMIT, div_round_half, div_round_i128, lemma_div_round_half_bound};
use crate::records::{ProcessedRecord, all_wf, copy_record};
use crate::rows::{ReportRow, row_view};
use crate::report1::rows_views;
use crate::stats::{spec_average, calculate_average, spec_percentage, calculate_percentage};
use crate::text::{str_eq, dec_digits_of, spec_int_digits, usize_to_string, i64_to_string};

verus! {

/// The baseline funding year against which later years are compared.
pub const BASELINE_YEAR: i32 = 2021;

/// Per-(year, type) aggregates, before formatting.
pub struct Report3Stat {
    pub funding_year: i32,
    pub type_of_work: String,
    pub total_projects: usize,
    pub avg_savings: i64,
    pub overrun_rate: i64,
    pub yoy_change: i128,
}

/// The distinct (year, type) pairs of `s`, in order of first appearance.
pub open spec fn distinct_yt(s: Seq<ProcessedRecord>) -> Seq<(i32, Seq<char>)>
    decreases s.len(),
{
    if s.len() == 0 {
        Seq::<(i32, Seq<char>)>::empty()
    } else {
        let rest = distinct_yt(s.drop_last());
        let k = (s.last().funding_year, s.last().type_of_work@);
        if rest.contains(k) {
            rest
        } else {
            rest.push(k)
        }
    }
}

/// The records of one (year, type) pair, in order.
pub open spec fn yt_group(s: Seq<ProcessedRecord>, k: (i32, Seq<char>)) -> Seq<ProcessedRecord> {
    s.filter(|r: ProcessedRecord| r.funding_year == k.0 && r.type_of_work@ == k.1)
}

/// Year-over-year change of a type's average savings against its baseline
/// year, as a fixed-point percentage of the baseline's magnitude; zero for
/// the baseline year itself, for a type without a baseline group, and for a
/// zero baseline.
pub open spec fn spec_yoy(s: Seq<ProcessedRecord>, year: i32, t: Seq<char>, avg: int) -> int {
    let base_recs = yt_group(s, (BASELINE_YEAR, t));
    if year == BASELINE_YEAR || base_recs.len() == 0 {
        0
    } else {
        let base = spec_average(savings_of(base_recs));
        if base == 0 {
            0
        } else {
            div_round_half(
                (avg - base) * 100_000_000,
                if base < 0 {
                    -base
                } else {
                    base
                },
            )
        }
    }
}

/// A stat row holds exactly the aggregates of its pair's group.
pub open spec fn r3_stat_matches(s: Seq<ProcessedRecord>, st: Report3Stat) -> bool {
    let recs = yt_group(s, (st.funding_year, st.type_of_work@));
    &&& recs.len() > 0
    &&& st.total_projects == recs.len()
    &&& st.avg_savings as int == spec_average(savings_of(recs))
    &&& st.overrun_rate as int == spec_percentage(
        savings_of(recs).filter(|v: i64| v < 0).len() as int,
        recs.len() as int,
    )
    &&& st.yoy_change as int == spec_yoy(s, st.funding_year, st.type_of_work@, st.avg_savings as int)
}

/// Ascending by year; within a year, descending by average savings.
pub open spec fn r3_order() -> spec_fn(Report3Stat, Report3Stat) -> bool {
    |a: Report3Stat, b: Report3Stat|
        a.funding_year < b.funding_year || (a.funding_year == b.funding_year && a.avg_savings
            >= b.avg_savings)
}

/// The formatted row of one trend stat, in header order.
pub open spec fn spec_r3_row(st: Report3Stat) -> Seq<(Seq<char>, Seq<char>)> {
    seq![
        ("FundingYear"@, spec_int_digits(st.funding_year as int)),
        ("TypeOfWork"@, st.type_of_work@),
        ("TotalProjects"@, dec_digits_of(st.total_projects as nat)),
        ("AvgSavings"@, spec_format_fixed(st.avg_savings as int, 2)),
        ("OverrunRate"@, spec_format_fixed(st.overrun_rate as int, 2)),
        ("YoYChange"@, spec_format_fixed(st.yoy_change as int, 2)),
    ]
}

/// The rendered form of each trend stat, in order.
pub open spec fn r3_stat_rows(stats: Seq<Report3Stat>) -> Seq<Seq<(Seq<char>, Seq<char>)>> {
    stats.map_values(|st: Report3Stat| spec_r3_row(st))
}

/// The (year, type) pair of each stat, in order.
pub open spec fn r3_pairs(stats: Seq<Report3Stat>) -> Seq<(i32, Seq<char>)> {
    stats.map_values(|st: Report3Stat| (st.funding_year, st.type_of_work@))
}

/// A stat sequence covers the distinct (year, type) pairs exactly once
/// each, every entry holding its group's aggregates, ordered by year then
/// by average savings descending (ties in no fixed order).
pub open spec fn r3_stats_ok(s: Seq<ProcessedRecord>, stats: Seq<Report3Stat>) -> bool {
    let keys = distinct_yt(s);
    &&& stats.len() == keys.len()
    &&& (forall|j: int| 0 <= j < stats.len() ==> r3_stat_matches(s, #[trigger] stats[j]))
    &&& (forall|j: int|
        0 <= j < stats.len() ==> keys.contains(
            ((#[trigger] stats[j]).funding_year, stats[j].type_of_work@),
        ))
    &&& (forall|k: int| 0 <= k < keys.len() ==> r3_pairs(stats).contains(#[trigger] keys[k]))
    &&& sorted_by(stats, r3_order())
}

/// What the trend report promises of its output rows.
pub open spec fn r3_output_ok(s: Seq<ProcessedRecord>, rows: Seq<ReportRow>) -> bool {
    exists|stats: Seq<Report3Stat>|
        #[trigger] r3_stats_ok(s, stats) && rows_views(rows) == r3_stat_rows(stats)
}

/// Every pair that `distinct_yt` lists selects a non-empty group.
proof fn lemma_distinct_yt_present(s: Seq<ProcessedRecord>)
    ensures
        forall|j: int|
            0 <= j < distinct_yt(s).len() ==> yt_group(s, #[trigger] distinct_yt(s)[j]).len() > 0,
    decreases s.len(),
{
    broadcast use vstd::prelude::Seq::lemma_filter_push;

    if s.len() > 0 {
        let pre = s.drop_last();
        lemma_distinct_yt_present(pre);
        assert(s =~= pre.push(s.last()));
        assert forall|j: int| 0 <= j < distinct_yt(s).len() implies yt_group(
            s,
            #[trigger] distinct_yt(s)[j],
        ).len() > 0 by {
            let k = distinct_yt(s)[j];
            let pred = |r: ProcessedRecord| r.funding_year == k.0 && r.type_of_work@ == k.1;
            if s.last().funding_year == k.0 && s.last().type_of_work@ == k.1 {
                assert(pre.push(s.last()).filter(pred) =~= pre.filter(pred).push(s.last()));
            } else {
                assert(pre.push(s.last()).filter(pred) =~= pre.filter(pred));
                assert(distinct_yt(pre).contains(k) && exists|t: int|
                    0 <= t < distinct_yt(pre).len() && distinct_yt(pre)[t] == k);
            }
        };
    }
}

/// Whether a (year, type) pair is already listed.
fn contains_pair(keys: &Vec<(i32, String)>, year: i32, tow: &str) -> (r: bool)
    ensures
        r == keys@.map_values(|p: (i32, String)| (p.0, p.1@)).contains((year, tow@)),
{
    let n: usize = keys.len();
    let mut i: usize = 0;
    while i < n
        invariant
            i <= n,
            n == keys@.len(),
            forall|k: int|
                0 <= k < i ==> !((#[trigger] keys@[k]).0 == year && keys@[k].1@ == tow@),
        decreases n - i,
    {
        let p = &keys[i];
        if p.0 == year && str_eq(p.1.as_str(), tow) {
            proof {
                assert(keys@.map_values(|p: (i32, String)| (p.0, p.1@))[i as int] == (year, tow@));
            }
            return true;
        }
        i += 1;
    }
    proof {
        let m = keys@.map_values(|p: (i32, String)| (p.0, p.1@));
        assert(forall|k: int| 0 <= k < m.len() ==> m[k] != (year, tow@));
    }
    false
}

/// Collects the distinct (year, type) pairs, in order of first appearance.
fn collect_keys_yt(records: &Vec<ProcessedRecord>) -> (keys: Vec<(i32, String)>)
    ensures
        keys@.map_values(|p: (i32, String)| (p.0, p.1@)) == distinct_yt(records@),
{
    let n: usize = records.len();
    let mut keys: Vec<(i32, String)> = Vec::new();
    let mut i: usize = 0;
    proof {
        assert(records@.subrange(0, 0) =~= Seq::<ProcessedRecord>::empty());
        assert(keys@.map_values(|p: (i32, String)| (p.0, p.1@)) =~= distinct_yt(
            records@.subrange(0, 0),
        ));
    }
    while i < n
        invariant
            i <= n,
            n == records@.len(),
            keys@.map_values(|p: (i32, String)| (p.0, p.1@)) == distinct_yt(
                records@.subrange(0, i as int),
            ),
        decreases n - i,
    {
        let rec = &records[i];
        proof {
            let ghost pre = records@.subrange(0, i as int);
            assert(records@.subrange(0, i + 1) =~= pre.push(records@[i as int]));
            assert(records@.subrange(0, i + 1).drop_last() =~= pre);
        }
        if !contains_pair(&keys, rec.funding_year, rec.type_of_work.as_str()) {
            keys.push((rec.funding_year, rec.type_of_work.clone()));
            proof {
                assert(keys@.map_values(|p: (i32, String)| (p.0, p.1@)) =~= distinct_yt(
                    records@.subrange(0, i + 1),
                ));
            }
        }
        i += 1;
    }
    proof {
        assert(records@.subrange(0, n as int) =~= records@);
    }
    keys
}

/// Collects the group of one (year, type) pair, in record order.
fn collect_group_yt(records: &Vec<ProcessedRecord>, year: i32, tow: &String) -> (g: Vec<
    ProcessedRecord,
>)
    requires
        all_wf(records@),
    ensures
        g@ == yt_group(records@, (year, tow@)),
        all_wf(g@),
{
    let n: usize = records.len();
    let mut g: Vec<ProcessedRecord> = Vec::new();
    let mut i: usize = 0;
    proof {
        broadcast use vstd::prelude::Seq::lemma_filter_push;

        assert(records@.subrange(0, 0) =~= Seq::<ProcessedRecord>::empty());
        assert(g@ =~= yt_group(records@.subrange(0, 0), (year, tow@)));
    }
    while i < n
        invariant
            i <= n,
            n == records@.len(),
            all_wf(records@),
            g@ == yt_group(records@.subrange(0, i as int), (year, tow@)),
            all_wf(g@),
        decreases n - i,
    {
        let rec = &records[i];
        proof {
            broadcast use vstd::prelude::Seq::lemma_filter_push;

            let ghost pre = records@.subrange(0, i as int);
            assert(records@.subrange(0, i + 1) =~= pre.push(records@[i as int]));
        }
        if rec.funding_year == year && str_eq(rec.type_of_work.as_str(), tow.as_str()) {
            let c = copy_record(rec);
            g.push(c);
        }
        i += 1;
    }
    proof {
        assert(records@.subrange(0, n as int) =~= records@);
    }
    g
}

/// Year-over-year change of one stat against its type's baseline group.
fn yoy_change(records: &Vec<ProcessedRecord>, year: i32, tow: &String, avg: i64) -> (r: i128)
    requires
        all_wf(records@),
        -2 * FX_LIMIT <= avg <= 2 * FX_LIMIT,
    ensures
        r as int == spec_yoy(records@, year, tow@, avg as int),
        -0x20000000000000000000000000000000 < r < 0x20000000000000000000000000000000,
{
    if year == BASELINE_YEAR {
        return 0;
    }
    let base_group = collect_group_yt(records, BASELINE_YEAR, tow);
    if base_group.len() == 0 {
        return 0;
    }
    let base_savings = savings_vec(&base_group);
    let base = calculate_average(&base_savings);
    if base == 0 {
        return 0;
    }
    let mag: i128 = if base < 0 {
        -(base as i128)
    } else {
        base as i128
    };
    let num: i128 = (avg as i128 - base as i128) * 100_000_000;
    proof {
        let m = 400_000_000_000_000_000 * 100_000_000int;
        assert(-m <= num as int <= m);
        assert(m * mag as int >= m) by (nonlinear_arith)
            requires
                mag as int >= 1,
                m > 0,
        ;
        lemma_div_round_half_bound(num as int, mag as int, m);
    }
    div_round_i128(num, mag)
}

/// Sorts trend stats by year ascending, then average savings descending.
fn sort_r3(stats: Vec<Report3Stat>) -> (out: Vec<Report3Stat>)
    ensures
        sorted_by(out@, r3_order()),
        out@.to_multiset() == stats@.to_multiset(),
{
    let ghost orig = stats@;
    let n: usize = stats.len();
    let mut rem = stats;
    let mut out: Vec<Report3Stat> = Vec::new();
    let mut i: usize = 0;
    proof {
        broadcast use vstd::prelude::Seq::to_multiset_ensures;

        assert(rem@ =~= orig.subrange(0, n as int));
        assert(orig.subrange(0, 0) =~= Seq::<Report3Stat>::empty());
        assert(out@.to_multiset() =~= orig.subrange(0, 0).to_multiset());
    }
    while i < n
        invariant
            i <= n,
            n == orig.len(),
            i + rem@.len() == n,
            rem@ == orig.subrange(i as int, n as int),
            sorted_by(out@, r3_order()),
            out@.to_multiset() == orig.subrange(0, i as int).to_multiset(),
            out@.len() == i,
        decreases n - i,
    {
        let st = rem.remove(0);
        proof {
            assert(st == orig[i as int]);
            assert(rem@ =~= orig.subrange(i + 1, n as int));
        }
        let mut pos: usize = 0;
        while pos < out.len() && (out[pos].funding_year < st.funding_year || (out[pos].funding_year
            == st.funding_year && out[pos].avg_savings >= st.avg_savings))
            invariant
                pos <= out@.len(),
                forall|k: int|
                    0 <= k < pos ==> ((#[trigger] out@[k]).funding_year < st.funding_year || (
                    out@[k].funding_year == st.funding_year && out@[k].avg_savings
                        >= st.avg_savings)),
            decreases out@.len() - pos,
        {
            pos += 1;
        }
        let ghost before = out@;
        let ghost v = st;
        out.insert(pos, st);
        proof {
            broadcast use vstd::prelude::Seq::to_multiset_ensures;
            broadcast use vstd::multiset::group_multiset_axioms;

            let take = before.subrange(0, pos as int);
            let skip = before.subrange(pos as int, before.len() as int);
            assert(out@ =~= take.push(v) + skip);
            assert(before =~= take + skip);
            vstd::seq_lib::lemma_multiset_commutative(take.push(v), skip);
            vstd::seq_lib::lemma_multiset_commutative(take, skip);
            take.to_multiset_ensures();
            assert(take.push(v).to_multiset() =~= take.to_multiset().insert(v));
            assert(out@.to_multiset() =~= before.to_multiset().insert(v));
            assert(orig.subrange(0, i + 1) =~= orig.subrange(0, i as int).push(v));
            orig.subrange(0, i as int).to_multiset_ensures();
            assert(orig.subrange(0, i as int).push(v).to_multiset() =~= orig.subrange(
                0,
                i as int,
            ).to_multiset().insert(v));
            let p = pos as int;
            assert forall|x: int, y: int| 0 <= x <= y < out@.len() implies #[trigger] r3_order()(
                out@[x],
                out@[y],
            ) by {
                if y < p {
                    assert(r3_order()(before[x], before[y]));
                } else if y == p {
                    if x < p {
                        assert(r3_order()(out@[x], out@[y]));
                    }
                } else if x < p {
                    assert(r3_order()(before[x], before[y - 1]));
                } else if x == p {
                    assert(r3_order()(before[p], before[y - 1]));
                } else {
                    assert(r3_order()(before[x - 1], before[y - 1]));
                }
            };
            assert(sorted_by(out@, r3_order()));
        }
        i += 1;
    }
    proof {
        assert(orig.subrange(0, n as int) =~= orig);
    }
    out
}

/// Renders one trend stat as a report row.
fn r3_row(st: &Report3Stat) -> (row: ReportRow)
    requires
        -0x20000000000000000000000000000000 < st.yoy_change < 0x20000000000000000000000000000000,
    ensures
        row_view(row) == spec_r3_row(*st),
{
    let mut cols: Vec<(String, String)> = Vec::new();
    cols.push((String::from_str("FundingYear"), i64_to_string(st.funding_year as i64)));
    cols.push((String::from_str("TypeOfWork"), st.type_of_work.clone()));
    cols.push((String::from_str("TotalProjects"), usize_to_string(st.total_projects)));
    cols.push((String::from_str("AvgSavings"), crate::format::format_number(st.avg_savings as i128, 2)));
    cols.push((String::from_str("OverrunRate"), crate::format::format_number(st.overrun_rate as i128, 2)));
    cols.push((String::from_str("YoYChange"), crate::format::format_number(st.yoy_change, 2)));
    let row = ReportRow { cols };
    proof {
        assert(row_view(row) =~= spec_r3_row(*st));
    }
    row
}

/// Builds the annual type-trend report.
pub fn generate_report3(records: &Vec<ProcessedRecord>) -> (rows: Vec<ReportRow>)
    requires
        all_wf(records@),
    ensures
        r3_output_ok(records@, rows@),
        rows@.len() == distinct_yt(records@).len(),
{
    let ghost keys_spec = distinct_yt(records@);
    let keys = collect_keys_yt(records);
    proof {
        lemma_distinct_yt_present(records@);
    }
    let nk: usize = keys.len();
    let mut stats: Vec<Report3Stat> = Vec::new();
    let mut j: usize = 0;
    while j < nk
        invariant
            j <= nk,
            nk == keys@.len(),
            all_wf(records@),
            keys@.map_values(|p: (i32, String)| (p.0, p.1@)) == keys_spec,
            keys_spec == distinct_yt(records@),
            forall|t: int|
                0 <= t < keys_spec.len() ==> yt_group(records@, #[trigger] keys_spec[t]).len()
                    > 0,
            stats@.len() == j,
            forall|t: int| 0 <= t < j ==> r3_stat_matches(records@, #[trigger] stats@[t]),
            forall|t: int|
                0 <= t < j ==> ((#[trigger] stats@[t]).funding_year, stats@[t].type_of_work@)
                    == keys_spec[t],
            forall|t: int|
                0 <= t < j ==> -0x20000000000000000000000000000000 < (
                #[trigger] stats@[t]).yoy_change < 0x20000000000000000000000000000000,
        decreases nk - j,
    {
        let year: i32 = keys[j].0;
        let tow: String = keys[j].1.clone();
        proof {
            assert(keys@.map_values(|p: (i32, String)| (p.0, p.1@))[j as int] == (year, tow@));
        }
        let group = collect_group_yt(records, year, &tow);
        let savings = savings_vec(&group);
        let avg_savings = calculate_average(&savings);
        let neg = count_negative(&savings);
        let overrun_rate = calculate_percentage(neg, group.len());
        let yoy = yoy_change(records, year, &tow, avg_savings);
        let st = Report3Stat {
            funding_year: year,
            type_of_work: tow,
            total_projects: group.len(),
            avg_savings,
            overrun_rate,
            yoy_change: yoy,
        };
        proof {
            assert(savings_of(group@).len() == group@.len());
            assert(r3_stat_matches(records@, st));
        }
        stats.push(st);
        j += 1;
    }
    let ghost pre_sort = stats@;
    let sorted = sort_r3(stats);
    let ns: usize = sorted.len();
    proof {
        broadcast use vstd::prelude::Seq::to_multiset_ensures;

        assert(sorted@.to_multiset().len() == pre_sort.to_multiset().len());
        assert forall|k: int|
            0 <= k < sorted@.len() implies -0x20000000000000000000000000000000 < (
        #[trigger] sorted@[k]).yoy_change < 0x20000000000000000000000000000000 by {
            assert(pre_sort.to_multiset().contains(sorted@[k]));
            let k0 = choose|k0: int| 0 <= k0 < pre_sort.len() && pre_sort[k0] == sorted@[k];
        };
    }
    let mut rows: Vec<ReportRow> = Vec::new();
    let mut t: usize = 0;
    while t < ns
        invariant
            t <= ns,
            ns == sorted@.len(),
            forall|k: int|
                0 <= k < sorted@.len() ==> -0x20000000000000000000000000000000 < (
                #[trigger] sorted@[k]).yoy_change < 0x20000000000000000000000000000000,
            rows@.len() == t,
            forall|k: int| 0 <= k < t ==> row_view(#[trigger] rows@[k]) == spec_r3_row(sorted@[k]),
        decreases ns - t,
    {
        let row = r3_row(&sorted[t]);
        rows.push(row);
        t += 1;
    }
    proof {
        broadcast use vstd::prelude::Seq::to_multiset_ensures;

        let stats_w = sorted@;
        assert(stats_w.len() == keys_spec.len());
        assert forall|x: int| 0 <= x < stats_w.len() implies r3_stat_matches(
            records@,
            #[trigger] stats_w[x],
        ) && keys_spec.contains((stats_w[x].funding_year, stats_w[x].type_of_work@)) by {
            assert(pre_sort.to_multiset().contains(stats_w[x]));
            let k0 = choose|k0: int| 0 <= k0 < pre_sort.len() && pre_sort[k0] == stats_w[x];
            assert(r3_stat_matches(records@, pre_sort[k0]));
            assert((pre_sort[k0].funding_year, pre_sort[k0].type_of_work@) == keys_spec[k0]);
        };
        assert forall|k: int| 0 <= k < keys_spec.len() implies r3_pairs(stats_w).contains(
            #[trigger] keys_spec[k],
        ) by {
            assert((pre_sort[k].funding_year, pre_sort[k].type_of_work@) == keys_spec[k]);
            assert(stats_w.to_multiset().contains(pre_sort[k]));
            let j2 = choose|j2: int| 0 <= j2 < stats_w.len() && stats_w[j2] == pre_sort[k];
            assert(r3_pairs(stats_w)[j2] == keys_spec[k]);
        };
        assert(r3_stats_ok(records@, stats_w));
        assert(rows_views(rows@) =~= r3_stat_rows(stats_w));
        assert(r3_output_ok(records@, rows@));
    }
    rows
}

} // verus!
