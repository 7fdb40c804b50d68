//! The pipeline's data shapes: a raw row of unparsed text, its typed
//! projection after cleaning, and the processed record with derived metrics.
//! Well-formedness bounds every numeric field so that later aggregation
//! stays within machine arithmetic.

use vstd::prelude::*;
use crate::numbers::FX_LIMIT;
use crate::dates::DATE_DAY_LIMIT;

verus! {

/// A completion delay is a difference of two bounded day counts.
pub const DELAY_LIMIT: i64 = 200_000_000;

/// One input row, every field as unparsed text; may be malformed.
pub struct RawRecord {
    pub region: String,
    pub main_island: String,
    pub funding_year: String,
    pub approved_budget_for_contract: String,
    pub contract_cost: String,
    pub start_date: String,
    pub actual_completion_date: String,
    pub project_latitude: String,
    pub project_longitude: String,
    pub province: String,
    pub contractor: String,
    pub type_of_work: String,
}

/// The outcome of validating one raw row: the ordered error messages, and
/// whether there were none.
pub struct ValidationResult {
    pub is_valid: bool,
    pub errors: Vec<String>,
}

/// A typed projection of a raw row that passed validation. Money and
/// coordinates are fixed-point units; dates are day counts.
pub struct CleanedRecord {
    pub region: String,
    pub main_island: String,
    pub funding_year: i32,
    pub approved_budget_for_contract: i64,
    pub contract_cost: i64,
    pub start_date: Option<i32>,
    pub actual_completion_date: Option<i32>,
    pub project_latitude: Option<i64>,
    pub project_longitude: Option<i64>,
    pub province: String,
    pub contractor: String,
    pub type_of_work: String,
}

impl CleanedRecord {
    /// Every numeric field within the representable domain.
    pub open spec fn wf(self) -> bool {
        &&& -FX_LIMIT <= self.approved_budget_for_contract <= FX_LIMIT
        &&& -FX_LIMIT <= self.contract_cost <= FX_LIMIT
        &&& (self.start_date matches Some(d) ==> -DATE_DAY_LIMIT <= d <= DATE_DAY_LIMIT)
        &&& (self.actual_completion_date matches Some(d) ==> -DATE_DAY_LIMIT <= d
            <= DATE_DAY_LIMIT)
        &&& (self.project_latitude matches Some(v) ==> -FX_LIMIT <= v <= FX_LIMIT)
        &&& (self.project_longitude matches Some(v) ==> -FX_LIMIT <= v <= FX_LIMIT)
    }
}

/// A cleaned record extended with its derived metrics. The coordinates may
/// later be filled by imputation; everything else is immutable.
pub struct ProcessedRecord {
    pub region: String,
    pub main_island: String,
    pub funding_year: i32,
    pub approved_budget_for_contract: i64,
    pub contract_cost: i64,
    pub start_date: Option<i32>,
    pub actual_completion_date: Option<i32>,
    pub project_latitude: Option<i64>,
    pub project_longitude: Option<i64>,
    pub province: String,
    pub contractor: String,
    pub type_of_work: String,
    pub cost_savings: i64,
    pub completion_delay_days: Option<i64>,
}

impl ProcessedRecord {
    /// Every numeric field within the representable domain; savings span at
    /// most twice the single-amount domain.
    pub open spec fn wf(self) -> bool {
        &&& -FX_LIMIT <= self.approved_budget_for_contract <= FX_LIMIT
        &&& -FX_LIMIT <= self.contract_cost <= FX_LIMIT
        &&& -2 * FX_LIMIT <= self.cost_savings <= 2 * FX_LIMIT
        &&& (self.completion_delay_days matches Some(d) ==> -DELAY_LIMIT <= d <= DELAY_LIMIT)
        &&& (self.project_latitude matches Some(v) ==> -FX_LIMIT <= v <= FX_LIMIT)
        &&& (self.project_longitude matches Some(v) ==> -FX_LIMIT <= v <= FX_LIMIT)
    }
}

/// Every record of a processed dataset is well formed.
pub open spec fn all_wf(s: Seq<ProcessedRecord>) -> bool {
    forall|i: int| 0 <= i < s.len() ==> (#[trigger] s[i]).wf()
}

/// An exact duplicate of a processed record.
pub fn copy_record(r: &ProcessedRecord) -> (c: ProcessedRecord)
    ensures
        c == *r,
{
    ProcessedRecord {
        region: r.region.clone(),
        main_island: r.main_island.clone(),
        funding_year: r.funding_year,
        approved_budget_for_contract: r.approved_budget_for_contract,
        contract_cost: r.contract_cost,
        start_date: r.start_date,
        actual_completion_date: r.actual_completion_date,
        project_latitude: r.project_latitude,
        project_longitude: r.project_longitude,
        province: r.province.clone(),
        contractor: r.contractor.clone(),
        type_of_work: r.type_of_work.clone(),
        cost_savings: r.cost_savings,
        completion_delay_days: r.completion_delay_days,
    }
}

/// An executable value agrees with a mathematical optional.
pub open spec fn opt_fx_matches(o: Option<i64>, s: Option<int>) -> bool {
    match o {
        Some(v) => s == Some(v as int),
        None => s is None,
    }
}

} // verus!
