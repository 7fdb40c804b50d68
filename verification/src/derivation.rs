//! Derived metrics: cost savings (budget minus cost) and completion delay
//! (days between start and completion, when both dates are present).

use vstd::prelude::*;
use crate::numbers::FX_LIMIT;
use crate::records::{CleanedRecord, ProcessedRecord};

verus! {

/// Budget minus cost, in fixed-point units.
pub fn calculate_cost_savings(approved_budget: i64, contract_cost: i64) -> (r: i64)
    requires
        -FX_LIMIT <= approved_budget <= FX_LIMIT,
        -FX_LIMIT <= contract_cost <= FX_LIMIT,
    ensures
        r as int == approved_budget - contract_cost,
{
    approved_budget - contract_cost
}

/// Days from start to completion; absent when either date is absent.
pub open spec fn spec_completion_delay(start: Option<i32>, completion: Option<i32>) -> Option<
    i64,
> {
    match (start, completion) {
        (Some(a), Some(b)) => Some((b - a) as i64),
        _ => None,
    }
}

pub fn calculate_completion_delay(start_date: Option<i32>, completion_date: Option<i32>) -> (r:
    Option<i64>)
    ensures
        r == spec_completion_delay(start_date, completion_date),
{
    match (start_date, completion_date) {
        (Some(start), Some(completion)) => Some(completion as i64 - start as i64),
        _ => None,
    }
}

/// How a processed record relates to the cleaned record it extends: every
/// carried field unchanged, the two derived fields as defined.
pub open spec fn spec_derived_from(p: ProcessedRecord, c: CleanedRecord) -> bool {
    &&& p.region == c.region
    &&& p.main_island == c.main_island
    &&& p.funding_year == c.funding_year
    &&& p.approved_budget_for_contract == c.approved_budget_for_contract
    &&& p.contract_cost == c.contract_cost
    &&& p.start_date == c.start_date
    &&& p.actual_completion_date == c.actual_completion_date
    &&& p.project_latitude == c.project_latitude
    &&& p.project_longitude == c.project_longitude
    &&& p.province == c.province
    &&& p.contractor == c.contractor
    &&& p.type_of_work == c.type_of_work
    &&& p.cost_savings as int == c.approved_budget_for_contract - c.contract_cost
    &&& p.completion_delay_days == spec_completion_delay(c.start_date, c.actual_completion_date)
}

/// Extends a cleaned record with its derived metrics.
pub fn add_derived_fields(record: CleanedRecord) -> (r: ProcessedRecord)
    requires
        record.wf(),
    ensures
        spec_derived_from(r, record),
        r.wf(),
{
    let cost_savings = calculate_cost_savings(
        record.approved_budget_for_contract,
        record.contract_cost,
    );
    let completion_delay = calculate_completion_delay(
        record.start_date,
        record.actual_completion_date,
    );
    ProcessedRecord {
        region: record.region,
        main_island: record.main_island,
        funding_year: record.funding_year,
        approved_budget_for_contract: record.approved_budget_for_contract,
        contract_cost: record.contract_cost,
        start_date: record.start_date,
        actual_completion_date: record.actual_completion_date,
        project_latitude: record.project_latitude,
        project_longitude: record.project_longitude,
        province: record.province,
        contractor: record.contractor,
        type_of_work: record.type_of_work,
        cost_savings,
        completion_delay_days: completion_delay,
    }
}

} // verus!
