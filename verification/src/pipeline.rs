//! The end-to-end transformation: validate and clean every raw row,
//! collecting one message per rejected row, then derive, impute and filter
//! the accepted rows. Reading the input and writing the reports stay with
//! the caller.

use vstd::prelude::*;
use vstd::string::*;
use crate::derivation::{add_derived_fields, spec_derived_from};
use crate::impute::{impute_coordinates, filter_by_year_range, spec_impute_one, spec_year_filter};
use crate::parse::spec_validate_number;
use crate::records::{RawRecord, CleanedRecord, ProcessedRecord, all_wf};
use crate::text::{dec_digits_of, usize_to_string};
use crate::validate::{spec_record_valid, spec_validation_errors, validate_record, clean_record};
use crate::parse::validate_number;

verus! {

/// A raw row survives cleaning when it validates and both required amounts
/// parse.
pub open spec fn spec_clean_ok(r: RawRecord) -> bool {
    &&& spec_record_valid(r)
    &&& spec_validate_number(r.approved_budget_for_contract@) is Some
    &&& spec_validate_number(r.contract_cost@) is Some
}

/// How many raw rows survive cleaning.
pub open spec fn clean_count(raws: Seq<RawRecord>) -> int
    decreases raws.len(),
{
    if raws.len() == 0 {
        0
    } else {
        clean_count(raws.drop_last()) + if spec_clean_ok(raws.last()) {
            1int
        } else {
            0int
        }
    }
}

/// The cleaned records are exactly the surviving raw rows, in order, each
/// cleaned from its row.
pub open spec fn cleans_to(raws: Seq<RawRecord>, cleaned: Seq<CleanedRecord>) -> bool
    decreases raws.len(),
{
    if raws.len() == 0 {
        cleaned.len() == 0
    } else {
        if spec_clean_ok(raws.last()) {
            cleaned.len() > 0 && crate::validate::spec_cleaned_from(cleaned.last(), raws.last())
                && cleans_to(raws.drop_last(), cleaned.drop_last())
        } else {
            cleans_to(raws.drop_last(), cleaned)
        }
    }
}

/// Messages joined with a comma and a space.
pub open spec fn join_msgs(msgs: Seq<Seq<char>>) -> Seq<char>
    decreases msgs.len(),
{
    if msgs.len() == 0 {
        Seq::<char>::empty()
    } else if msgs.len() == 1 {
        msgs[0]
    } else {
        join_msgs(msgs.drop_last()) + ", "@ + msgs.last()
    }
}

/// The message reported for a rejected raw row at position `i` (rows are
/// numbered from two, after the header line).
pub open spec fn row_error_msg(i: int, r: RawRecord) -> Seq<char> {
    let prefix = "Row "@ + dec_digits_of((i + 2) as nat) + ": "@;
    if !spec_record_valid(r) {
        prefix + join_msgs(spec_validation_errors(r))
    } else if spec_validate_number(r.approved_budget_for_contract@) is None {
        prefix + "Unparseable ApprovedBudgetForContract"@
    } else {
        prefix + "Unparseable ContractCost"@
    }
}

/// The messages of all rejected rows, in row order.
pub open spec fn error_list(raws: Seq<RawRecord>) -> Seq<Seq<char>>
    decreases raws.len(),
{
    if raws.len() == 0 {
        Seq::<Seq<char>>::empty()
    } else {
        error_list(raws.drop_last()) + if spec_clean_ok(raws.last()) {
            Seq::<Seq<char>>::empty()
        } else {
            seq![row_error_msg(raws.len() - 1, raws.last())]
        }
    }
}

/// Every record after whole-dataset imputation.
pub open spec fn imputed_all(derived: Seq<ProcessedRecord>) -> Seq<ProcessedRecord> {
    derived.map_values(|r: ProcessedRecord| spec_impute_one(derived, r))
}

/// The working set relates to the raw rows through cleaning, derivation,
/// imputation and the year filter, in that order.
pub open spec fn pipeline_records_ok(
    raws: Seq<RawRecord>,
    out: Seq<ProcessedRecord>,
    a: i32,
    b: i32,
) -> bool {
    exists|cleaned: Seq<CleanedRecord>, derived: Seq<ProcessedRecord>|
        #![trigger cleans_to(raws, cleaned), imputed_all(derived)]
        {
            &&& cleans_to(raws, cleaned)
            &&& derived.len() == cleaned.len()
            &&& (forall|j: int|
                0 <= j < derived.len() ==> spec_derived_from(#[trigger] derived[j], cleaned[j]))
            &&& out == spec_year_filter(imputed_all(derived), a, b)
        }
}

/// What one pipeline run yields: the filtered working set, the messages of
/// the rejected rows, and the row counts.
pub struct PipelineOutcome {
    pub records: Vec<ProcessedRecord>,
    pub errors: Vec<String>,
    pub total_rows: usize,
    pub valid_rows: usize,
}

/// Joins messages with a comma and a space.
fn join_comma(msgs: &Vec<String>) -> (r: String)
    ensures
        r@ == join_msgs(msgs@.map_values(|m: String| m@)),
{
    let n: usize = msgs.len();
    let mut acc = String::new();
    let mut i: usize = 0;
    proof {
        let ghost mv = msgs@.map_values(|m: String| m@);
        assert(mv.subrange(0, 0) =~= Seq::<Seq<char>>::empty());
        assert(acc@ =~= join_msgs(mv.subrange(0, 0)));
    }
    while i < n
        invariant
            i <= n,
            n == msgs@.len(),
            acc@ == join_msgs(msgs@.map_values(|m: String| m@).subrange(0, i as int)),
        decreases n - i,
    {
        proof {
            let ghost mv = msgs@.map_values(|m: String| m@);
            assert(mv.subrange(0, i + 1).drop_last() =~= mv.subrange(0, i as int));
            assert(mv.subrange(0, i + 1).last() == mv[i as int]);
        }
        if i > 0 {
            acc.append(", ");
        }
        acc.append(msgs[i].as_str());
        i += 1;
    }
    proof {
        let ghost mv = msgs@.map_values(|m: String| m@);
        assert(mv.subrange(0, n as int) =~= mv);
    }
    acc
}

/// Runs the whole transformation over raw rows: validation and cleaning
/// with one message per rejected row, derivation, imputation, and the
/// funding-year filter.
pub fn process_dataset(raw_records: &Vec<RawRecord>, start_year: i32, end_year: i32) -> (outcome:
    PipelineOutcome)
    requires
        raw_records@.len() + 2 <= usize::MAX,
    ensures
        outcome.total_rows == raw_records@.len(),
        outcome.valid_rows as int == clean_count(raw_records@),
        outcome.errors@.map_values(|e: String| e@) == error_list(raw_records@),
        pipeline_records_ok(raw_records@, outcome.records@, start_year, end_year),
        all_wf(outcome.records@),
{
    let n: usize = raw_records.len();
    let mut cleaned: Vec<CleanedRecord> = Vec::new();
    let mut errors: Vec<String> = Vec::new();
    let mut i: usize = 0;
    proof {
        assert(raw_records@.subrange(0, 0) =~= Seq::<RawRecord>::empty());
        assert(errors@.map_values(|e: String| e@) =~= error_list(raw_records@.subrange(0, 0)));
    }
    while i < n
        invariant
            i <= n,
            n == raw_records@.len(),
            n + 2 <= usize::MAX,
            cleans_to(raw_records@.subrange(0, i as int), cleaned@),
            cleaned@.len() as int == clean_count(raw_records@.subrange(0, i as int)),
            forall|j: int| 0 <= j < cleaned@.len() ==> (#[trigger] cleaned@[j]).wf(),
            errors@.map_values(|e: String| e@) == error_list(raw_records@.subrange(0, i as int)),
        decreases n - i,
    {
        let rec = &raw_records[i];
        proof {
            let ghost pre = raw_records@.subrange(0, i as int);
            assert(raw_records@.subrange(0, i + 1) =~= pre.push(raw_records@[i as int]));
            assert(raw_records@.subrange(0, i + 1).drop_last() =~= pre);
        }
        match clean_record(rec) {
            Some(c) => {
                let ghost before_c = cleaned@;
                cleaned.push(c);
                proof {
                    assert(cleaned@.drop_last() =~= before_c);
                }
            },
            None => {
                let mut msg = String::from_str("Row ");
                let num = usize_to_string(i + 2);
                msg.append(num.as_str());
                msg.append(": ");
                let validation = validate_record(rec);
                if !validation.is_valid {
                    let joined = join_comma(&validation.errors);
                    msg.append(joined.as_str());
                } else {
                    match validate_number(rec.approved_budget_for_contract.as_str()) {
                        None => {
                            msg.append("Unparseable ApprovedBudgetForContract");
                        },
                        Some(_) => {
                            msg.append("Unparseable ContractCost");
                        },
                    }
                }
                proof {
                    assert(msg@ == row_error_msg(i as int, raw_records@[i as int]));
                }
                errors.push(msg);
                proof {
                    assert(errors@.map_values(|e: String| e@) =~= error_list(
                        raw_records@.subrange(0, i + 1),
                    ));
                }
            },
        }
        i += 1;
    }
    proof {
        assert(raw_records@.subrange(0, n as int) =~= raw_records@);
    }
    let valid_rows: usize = cleaned.len();
    let ghost cleaned_seq = cleaned@;
    // Derive metrics for every cleaned record.
    let mut derived: Vec<ProcessedRecord> = Vec::new();
    let mut rem = cleaned;
    let mut d: usize = 0;
    let nd: usize = valid_rows;
    proof {
        assert(rem@ =~= cleaned_seq.subrange(0, nd as int));
    }
    while d < nd
        invariant
            d <= nd,
            nd == cleaned_seq.len(),
            d + rem@.len() == nd,
            rem@ == cleaned_seq.subrange(d as int, nd as int),
            forall|j: int| 0 <= j < cleaned_seq.len() ==> (#[trigger] cleaned_seq[j]).wf(),
            derived@.len() == d,
            forall|j: int|
                0 <= j < d ==> spec_derived_from(#[trigger] derived@[j], cleaned_seq[j]),
            all_wf(derived@),
        decreases nd - d,
    {
        let c = rem.remove(0);
        proof {
            assert(c == cleaned_seq[d as int]);
            assert(rem@ =~= cleaned_seq.subrange(d + 1, nd as int));
        }
        let p = add_derived_fields(c);
        derived.push(p);
        d += 1;
    }
    let ghost derived_seq = derived@;
    // Impute missing coordinates, then filter to the year window.
    let imputed = impute_coordinates(derived);
    proof {
        assert(imputed@ =~= imputed_all(derived_seq));
    }
    let filtered = filter_by_year_range(imputed, start_year, end_year);
    proof {
        assert(cleans_to(raw_records@, cleaned_seq));
        assert(pipeline_records_ok(raw_records@, filtered@, start_year, end_year));
    }
    PipelineOutcome { records: filtered, errors, total_rows: n, valid_rows }
}

} // verus!
