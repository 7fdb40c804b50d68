//! Row validation and cleaning. Validation checks every rule independently
//! and collects one message per violation, in a fixed order; cleaning turns
//! a valid row into typed fields, dropping the row when a required amount
//! does not parse.

use vstd::prelude::*;
use vstd::string::*;
use crate::text::{seq_is_blank, is_blank, is_digit_char, is_digit};
use crate::parse::{end_digits, digits_value, lemma_digits_value_mono, spec_validate_number, validate_number};
use crate::dates::{spec_validate_date, validate_date};
use crate::records::{RawRecord, ValidationResult, CleanedRecord};

verus! {

/// Reading of integer text: an optional sign, then nothing but digits, at
/// least one. The mathematical value is unbounded.
pub open spec fn spec_parse_int(s: Seq<char>) -> Option<int> {
    let neg = s.len() > 0 && s[0] == '-';
    let b: int = if s.len() > 0 && (s[0] == '-' || s[0] == '+') {
        1
    } else {
        0
    };
    if s.len() == b || end_digits(s, b) != s.len() {
        None
    } else {
        let m = digits_value(s, b, s.len() as int);
        Some(
            if neg {
                -m
            } else {
                m
            },
        )
    }
}

/// Reads integer text as a machine integer: `None` when the text is not an
/// integer or its value does not fit.
pub fn parse_i32(s: &str) -> (r: Option<i32>)
    ensures
        r matches Some(v) ==> spec_parse_int(s@) == Some(v as int),
        r is None ==> (spec_parse_int(s@) is None || (spec_parse_int(s@) matches Some(m) && !(
        i32::MIN <= m <= i32::MAX))),
{
    let n: usize = s.unicode_len();
    let mut chars: Vec<char> = Vec::new();
    let mut i: usize = 0;
    while i < n
        invariant
            i <= n,
            n == s@.len(),
            chars@ == s@.subrange(0, i as int),
        decreases n - i,
    {
        chars.push(s.get_char(i));
        proof {
            let ghost ci = s@[i as int];
            assert(s@.subrange(0, i + 1) =~= s@.subrange(0, i as int).push(ci));
        }
        i += 1;
    }
    proof {
        assert(chars@ =~= s@);
    }
    let len: usize = chars.len();
    let mut neg: bool = false;
    let mut b: usize = 0;
    if len > 0 {
        let c0 = chars[0];
        if c0 == '-' {
            neg = true;
            b = 1;
        } else if c0 == '+' {
            b = 1;
        }
    }
    if len == b {
        return None;
    }
    let mut j: usize = b;
    let mut acc: i64 = 0;
    let mut too_big: bool = false;
    while j < len && is_digit(chars[j])
        invariant
            b <= j <= len,
            len == chars@.len(),
            end_digits(chars@, b as int) == end_digits(chars@, j as int),
            forall|t: int| b <= t < j ==> is_digit_char(chars@[t]),
            !too_big ==> acc == digits_value(chars@, b as int, j as int) && 0 <= acc
                <= 0x80000000,
            too_big ==> digits_value(chars@, b as int, j as int) > 0x80000000,
        decreases len - j,
    {
        let d = chars[j];
        proof {
            if too_big {
                lemma_digits_value_mono(chars@, b as int, j as int, j + 1);
            }
        }
        if !too_big {
            acc = acc * 10 + (d as u32 - 0x30) as i64;
            if acc > 0x80000000 {
                too_big = true;
            }
        }
        j += 1;
    }
    if j != len {
        return None;
    }
    if too_big {
        return None;
    }
    if neg {
        Some(-(acc as i64) as i32)
    } else {
        if acc > 0x7fffffff {
            return None;
        }
        Some(acc as i32)
    }
}

/// The funding-year window that the dataset covers.
pub fn is_valid_year(year: i32) -> (r: bool)
    ensures
        r == (2021 <= year <= 2023),
{
    year >= 2021 && year <= 2023
}

/// Whether funding-year text denotes a year inside the window.
pub open spec fn spec_year_ok(s: Seq<char>) -> bool {
    spec_parse_int(s) matches Some(y) && 2021 <= y <= 2023
}

/// The ordered validation messages for one raw row: blank required fields
/// and an unusable funding year, each checked independently.
pub open spec fn spec_validation_errors(r: RawRecord) -> Seq<Seq<char>> {
    let e1: Seq<Seq<char>> = if seq_is_blank(r.region@) {
        seq!["Missing Region"@]
    } else {
        seq![]
    };
    let e2: Seq<Seq<char>> = if seq_is_blank(r.main_island@) {
        seq!["Missing MainIsland"@]
    } else {
        seq![]
    };
    let e3: Seq<Seq<char>> = if !spec_year_ok(r.funding_year@) {
        seq!["Invalid FundingYear: "@ + r.funding_year@]
    } else {
        seq![]
    };
    let e4: Seq<Seq<char>> = if seq_is_blank(r.approved_budget_for_contract@) {
        seq!["Missing ApprovedBudgetForContract"@]
    } else {
        seq![]
    };
    let e5: Seq<Seq<char>> = if seq_is_blank(r.contract_cost@) {
        seq!["Missing ContractCost"@]
    } else {
        seq![]
    };
    e1 + e2 + e3 + e4 + e5
}

/// A row is valid exactly when it draws no validation message.
pub open spec fn spec_record_valid(r: RawRecord) -> bool {
    spec_validation_errors(r).len() == 0
}

/// Checks one raw row against every validation rule, collecting the
/// messages in rule order.
pub fn validate_record(record: &RawRecord) -> (v: ValidationResult)
    ensures
        v.errors@.map_values(|e: String| e@) == spec_validation_errors(*record),
        v.is_valid == spec_record_valid(*record),
{
    let mut errors: Vec<String> = Vec::new();
    if is_blank(record.region.as_str()) {
        errors.push(String::from_str("Missing Region"));
    }
    if is_blank(record.main_island.as_str()) {
        errors.push(String::from_str("Missing MainIsland"));
    }
    let year_ok: bool = match parse_i32(record.funding_year.as_str()) {
        Some(y) => is_valid_year(y),
        None => false,
    };
    if !year_ok {
        let msg = String::from_str("Invalid FundingYear: ").concat(record.funding_year.as_str());
        errors.push(msg);
    }
    if is_blank(record.approved_budget_for_contract.as_str()) {
        errors.push(String::from_str("Missing ApprovedBudgetForContract"));
    }
    if is_blank(record.contract_cost.as_str()) {
        errors.push(String::from_str("Missing ContractCost"));
    }
    let is_valid = errors.len() == 0;
    proof {
        assert(errors@.map_values(|e: String| e@) =~= spec_validation_errors(*record));
    }
    ValidationResult { is_valid, errors }
}

/// The characters of the literal `Unknown`.
pub open spec fn unknown_seq() -> Seq<char> {
    seq!['U', 'n', 'k', 'n', 'o', 'w', 'n']
}

/// A text field defaulted to `Unknown` when blank.
pub open spec fn defaulted(s: Seq<char>) -> Seq<char> {
    if seq_is_blank(s) {
        unknown_seq()
    } else {
        s
    }
}

/// Returns the field itself, or the literal `Unknown` when it is blank.
fn default_unknown(s: &String) -> (r: String)
    ensures
        r@ == defaulted(s@),
{
    proof {
        reveal_strlit("Unknown");
        assert("Unknown"@ =~= unknown_seq());
    }
    if is_blank(s.as_str()) {
        String::from_str("Unknown")
    } else {
        s.clone()
    }
}

/// How a cleaned record relates to the raw row it came from.
pub open spec fn spec_cleaned_from(c: CleanedRecord, r: RawRecord) -> bool {
    &&& c.region@ == r.region@
    &&& c.main_island@ == r.main_island@
    &&& Some(c.funding_year as int) == spec_parse_int(r.funding_year@)
    &&& Some(c.approved_budget_for_contract as int) == spec_validate_number(
        r.approved_budget_for_contract@,
    )
    &&& Some(c.contract_cost as int) == spec_validate_number(r.contract_cost@)
    &&& c.start_date == spec_validate_date(r.start_date@)
    &&& c.actual_completion_date == spec_validate_date(r.actual_completion_date@)
    &&& crate::records::opt_fx_matches(c.project_latitude, spec_validate_number(
        r.project_latitude@,
    ))
    &&& crate::records::opt_fx_matches(c.project_longitude, spec_validate_number(
        r.project_longitude@,
    ))
    &&& c.province@ == r.province@
    &&& c.contractor@ == defaulted(r.contractor@)
    &&& c.type_of_work@ == defaulted(r.type_of_work@)
}

/// Turns a raw row into a typed record. The row is refused (`None`) exactly
/// when validation finds an error or a required amount does not parse.
pub fn clean_record(record: &RawRecord) -> (r: Option<CleanedRecord>)
    ensures
        r matches Some(c) ==> spec_cleaned_from(c, *record) && c.wf(),
        r is None <==> !spec_record_valid(*record) || spec_validate_number(
            record.approved_budget_for_contract@,
        ) is None || spec_validate_number(record.contract_cost@) is None,
{
    let validation = validate_record(record);
    if !validation.is_valid {
        return None;
    }
    let approved_budget = match validate_number(record.approved_budget_for_contract.as_str()) {
        Some(v) => v,
        None => {
            return None;
        },
    };
    let contract_cost = match validate_number(record.contract_cost.as_str()) {
        Some(v) => v,
        None => {
            return None;
        },
    };
    let start_date = validate_date(record.start_date.as_str());
    let actual_completion_date = validate_date(record.actual_completion_date.as_str());
    let latitude = validate_number(record.project_latitude.as_str());
    let longitude = validate_number(record.project_longitude.as_str());
    let funding_year = match parse_i32(record.funding_year.as_str()) {
        Some(y) => y,
        None => {
            return None;
        },
    };
    Some(
        CleanedRecord {
            region: record.region.clone(),
            main_island: record.main_island.clone(),
            funding_year,
            approved_budget_for_contract: approved_budget,
            contract_cost,
            start_date,
            actual_completion_date,
            project_latitude: latitude,
            project_longitude: longitude,
            province: record.province.clone(),
            contractor: default_unknown(&record.contractor),
            type_of_work: default_unknown(&record.type_of_work),
        },
    )
}

} // verus!
