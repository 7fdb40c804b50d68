//! Whole-dataset passes: imputation of missing coordinates from per-province
//! means, and the funding-year window filter.

use vstd::prelude::*;
use crate::numbers::{FX_LIMIT, lemma_div_round_half_bound};
use crate::records::{ProcessedRecord, all_wf, copy_record};
use crate::stats::{spec_average, calculate_average, sum_of, lemma_sum_of_bound};
use crate::text::{seq_is_blank, is_blank, str_eq};

verus! {

/// The known latitudes of a province, in record order.
pub open spec fn known_lats(s: Seq<ProcessedRecord>, p: Seq<char>) -> Seq<i64> {
    s.filter(|r: ProcessedRecord| r.province@ == p && r.project_latitude is Some).map_values(
        |r: ProcessedRecord| r.project_latitude.unwrap(),
    )
}

/// The known longitudes of a province, in record order.
pub open spec fn known_lngs(s: Seq<ProcessedRecord>, p: Seq<char>) -> Seq<i64> {
    s.filter(|r: ProcessedRecord| r.province@ == p && r.project_longitude is Some).map_values(
        |r: ProcessedRecord| r.project_longitude.unwrap(),
    )
}

/// Mean known latitude of a province; absent when the province has none.
pub open spec fn mean_lat_opt(s: Seq<ProcessedRecord>, p: Seq<char>) -> Option<i64> {
    if known_lats(s, p).len() == 0 {
        None
    } else {
        Some(spec_average(known_lats(s, p)) as i64)
    }
}

/// Mean known longitude of a province; absent when the province has none.
pub open spec fn mean_lng_opt(s: Seq<ProcessedRecord>, p: Seq<char>) -> Option<i64> {
    if known_lngs(s, p).len() == 0 {
        None
    } else {
        Some(spec_average(known_lngs(s, p)) as i64)
    }
}

/// A record after imputation against dataset `s`: a blank province leaves it
/// untouched; otherwise each absent coordinate is filled, independently,
/// from its province's mean (staying absent when the province has none).
pub open spec fn spec_impute_one(s: Seq<ProcessedRecord>, r: ProcessedRecord) -> ProcessedRecord {
    if seq_is_blank(r.province@) {
        r
    } else {
        ProcessedRecord {
            project_latitude: if r.project_latitude is Some {
                r.project_latitude
            } else {
                mean_lat_opt(s, r.province@)
            },
            project_longitude: if r.project_longitude is Some {
                r.project_longitude
            } else {
                mean_lng_opt(s, r.province@)
            },
            ..r
        }
    }
}

/// Mean known latitude of `province` over the whole dataset.
fn province_lat_mean(records: &Vec<ProcessedRecord>, province: &String) -> (r: Option<i64>)
    requires
        all_wf(records@),
    ensures
        r == mean_lat_opt(records@, province@),
        r matches Some(v) ==> -FX_LIMIT <= v <= FX_LIMIT,
{
    let n: usize = records.len();
    let mut v: Vec<i64> = Vec::new();
    let mut j: usize = 0;
    proof {
        broadcast use vstd::prelude::Seq::lemma_filter_push;

        assert(records@.subrange(0, 0) =~= Seq::<ProcessedRecord>::empty());
        assert(v@ =~= known_lats(records@.subrange(0, 0), province@));
    }
    while j < n
        invariant
            j <= n,
            n == records@.len(),
            all_wf(records@),
            v@ == known_lats(records@.subrange(0, j as int), province@),
            forall|k: int| 0 <= k < v@.len() ==> -FX_LIMIT <= #[trigger] v@[k] <= FX_LIMIT,
        decreases n - j,
    {
        let rec = &records[j];
        proof {
            broadcast use vstd::prelude::Seq::lemma_filter_push;

            let ghost pre = records@.subrange(0, j as int);
            let ghost rj = records@[j as int];
            assert(records@.subrange(0, j + 1) =~= pre.push(rj));
            let ghost pred = |r: ProcessedRecord| r.province@ == province@
                && r.project_latitude is Some;
            let ghost f = |r: ProcessedRecord| r.project_latitude.unwrap();
            if pred(rj) {
                assert(pre.push(rj).filter(pred).map_values(f) =~= pre.filter(pred).map_values(
                    f,
                ).push(f(rj)));
            } else {
                assert(pre.push(rj).filter(pred).map_values(f) =~= pre.filter(pred).map_values(f));
            }
        }
        if str_eq(rec.province.as_str(), province.as_str()) {
            match rec.project_latitude {
                Some(lat) => {
                    v.push(lat);
                },
                None => {},
            }
        }
        j += 1;
    }
    proof {
        assert(records@.subrange(0, n as int) =~= records@);
    }
    if v.len() == 0 {
        None
    } else {
        let avg = calculate_average(&v);
        proof {
            lemma_sum_of_bound(v@, FX_LIMIT as int);
            lemma_div_round_half_bound(sum_of(v@), v@.len() as int, FX_LIMIT as int);
        }
        Some(avg)
    }
}

/// Mean known longitude of `province` over the whole dataset.
fn province_lng_mean(records: &Vec<ProcessedRecord>, province: &String) -> (r: Option<i64>)
    requires
        all_wf(records@),
    ensures
        r == mean_lng_opt(records@, province@),
        r matches Some(v) ==> -FX_LIMIT <= v <= FX_LIMIT,
{
    let n: usize = records.len();
    let mut v: Vec<i64> = Vec::new();
    let mut j: usize = 0;
    proof {
        broadcast use vstd::prelude::Seq::lemma_filter_push;

        assert(records@.subrange(0, 0) =~= Seq::<ProcessedRecord>::empty());
        assert(v@ =~= known_lngs(records@.subrange(0, 0), province@));
    }
    while j < n
        invariant
            j <= n,
            n == records@.len(),
            all_wf(records@),
            v@ == known_lngs(records@.subrange(0, j as int), province@),
            forall|k: int| 0 <= k < v@.len() ==> -FX_LIMIT <= #[trigger] v@[k] <= FX_LIMIT,
        decreases n - j,
    {
        let rec = &records[j];
        proof {
            broadcast use vstd::prelude::Seq::lemma_filter_push;

            let ghost pre = records@.subrange(0, j as int);
            let ghost rj = records@[j as int];
            assert(records@.subrange(0, j + 1) =~= pre.push(rj));
            let ghost pred = |r: ProcessedRecord| r.province@ == province@
                && r.project_longitude is Some;
            let ghost f = |r: ProcessedRecord| r.project_longitude.unwrap();
            if pred(rj) {
                assert(pre.push(rj).filter(pred).map_values(f) =~= pre.filter(pred).map_values(
                    f,
                ).push(f(rj)));
            } else {
                assert(pre.push(rj).filter(pred).map_values(f) =~= pre.filter(pred).map_values(f));
            }
        }
        if str_eq(rec.province.as_str(), province.as_str()) {
            match rec.project_longitude {
                Some(lng) => {
                    v.push(lng);
                },
                None => {},
            }
        }
        j += 1;
    }
    proof {
        assert(records@.subrange(0, n as int) =~= records@);
    }
    if v.len() == 0 {
        None
    } else {
        let avg = calculate_average(&v);
        proof {
            lemma_sum_of_bound(v@, FX_LIMIT as int);
            lemma_div_round_half_bound(sum_of(v@), v@.len() as int, FX_LIMIT as int);
        }
        Some(avg)
    }
}

/// Fills each missing coordinate from its province's mean over the whole
/// dataset, axis by axis; records with a blank province are left untouched.
pub fn impute_coordinates(records: Vec<ProcessedRecord>) -> (out: Vec<ProcessedRecord>)
    requires
        all_wf(records@),
    ensures
        out@.len() == records@.len(),
        forall|i: int|
            0 <= i < records@.len() ==> out@[i] == spec_impute_one(
                records@,
                #[trigger] records@.index(i),
            ),
        all_wf(out@),
{
    let n: usize = records.len();
    let mut out: Vec<ProcessedRecord> = Vec::new();
    let mut i: usize = 0;
    while i < n
        invariant
            i <= n,
            n == records@.len(),
            all_wf(records@),
            out@.len() == i,
            forall|k: int|
                0 <= k < i ==> out@[k] == spec_impute_one(records@, #[trigger] records@[k]),
            all_wf(out@),
        decreases n - i,
    {
        let rec = &records[i];
        if is_blank(rec.province.as_str()) {
            let c = copy_record(rec);
            out.push(c);
        } else {
            let lat = match rec.project_latitude {
                Some(v) => Some(v),
                None => province_lat_mean(&records, &rec.province),
            };
            let lng = match rec.project_longitude {
                Some(v) => Some(v),
                None => province_lng_mean(&records, &rec.province),
            };
            let filled = ProcessedRecord {
                region: rec.region.clone(),
                main_island: rec.main_island.clone(),
                funding_year: rec.funding_year,
                approved_budget_for_contract: rec.approved_budget_for_contract,
                contract_cost: rec.contract_cost,
                start_date: rec.start_date,
                actual_completion_date: rec.actual_completion_date,
                project_latitude: lat,
                project_longitude: lng,
                province: rec.province.clone(),
                contractor: rec.contractor.clone(),
                type_of_work: rec.type_of_work.clone(),
                cost_savings: rec.cost_savings,
                completion_delay_days: rec.completion_delay_days,
            };
            proof {
                assert(filled == spec_impute_one(records@, records@[i as int]));
            }
            out.push(filled);
        }
        i += 1;
    }
    out
}

/// Records whose funding year lies in the inclusive window.
pub open spec fn spec_year_filter(s: Seq<ProcessedRecord>, a: i32, b: i32) -> Seq<
    ProcessedRecord,
> {
    s.filter(|r: ProcessedRecord| a <= r.funding_year && r.funding_year <= b)
}

/// Keeps the records whose funding year lies in `[start_year, end_year]`,
/// in order.
pub fn filter_by_year_range(records: Vec<ProcessedRecord>, start_year: i32, end_year: i32) -> (out:
    Vec<ProcessedRecord>)
    ensures
        out@ == spec_year_filter(records@, start_year, end_year),
        forall|k: int| 0 <= k < out@.len() ==> records@.contains(#[trigger] out@[k]),
        all_wf(records@) ==> all_wf(out@),
{
    let ghost orig = records@;
    let n: usize = records.len();
    let mut remaining = records;
    let mut out: Vec<ProcessedRecord> = Vec::new();
    let mut i: usize = 0;
    proof {
        broadcast use vstd::prelude::Seq::lemma_filter_push;

        assert(remaining@ =~= orig.subrange(0, n as int));
        assert(orig.subrange(0, 0) =~= Seq::<ProcessedRecord>::empty());
        assert(out@ =~= spec_year_filter(orig.subrange(0, 0), start_year, end_year));
    }
    while i < n
        invariant
            i <= n,
            n == orig.len(),
            i + remaining@.len() == n,
            remaining@ == orig.subrange(i as int, n as int),
            out@ == spec_year_filter(orig.subrange(0, i as int), start_year, end_year),
            forall|k: int| 0 <= k < out@.len() ==> orig.contains(#[trigger] out@[k]),
        decreases n - i,
    {
        let r = remaining.remove(0);
        proof {
            broadcast use vstd::prelude::Seq::lemma_filter_push;

            assert(r == orig[i as int]);
            assert(remaining@ =~= orig.subrange(i + 1, n as int));
            let ghost pre = orig.subrange(0, i as int);
            assert(orig.subrange(0, i + 1) =~= pre.push(orig[i as int]));
            assert(orig.contains(orig[i as int]));
        }
        if start_year <= r.funding_year && r.funding_year <= end_year {
            out.push(r);
        }
        i += 1;
    }
    proof {
        assert(orig.subrange(0, n as int) =~= orig);
        if all_wf(orig) {
            assert forall|k: int| 0 <= k < out@.len() implies (#[trigger] out@[k]).wf() by {
                let j = choose|j: int| 0 <= j < orig.len() && orig[j] == out@[k];
                assert(orig[j].wf());
            };
        }
    }
    out
}

} // verus!
