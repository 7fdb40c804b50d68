//! Validation, cleaning and end-to-end pipeline behaviour.

use flood_pipeline::dates::validate_date;
use flood_pipeline::derivation::calculate_completion_delay;
use flood_pipeline::parse::validate_number;
use flood_pipeline::pipeline::process_dataset;
use flood_pipeline::records::RawRecord;
use flood_pipeline::report1::generate_report1;
use flood_pipeline::summary::generate_summary;
use flood_pipeline::validate::{clean_record, is_valid_year, validate_record};

fn raw(
    region: &str,
    main_island: &str,
    funding_year: &str,
    budget: &str,
    cost: &str,
    start: &str,
    completion: &str,
    lat: &str,
    lng: &str,
    province: &str,
    contractor: &str,
    tow: &str,
) -> RawRecord {
    RawRecord {
        region: region.to_string(),
        main_island: main_island.to_string(),
        funding_year: funding_year.to_string(),
        approved_budget_for_contract: budget.to_string(),
        contract_cost: cost.to_string(),
        start_date: start.to_string(),
        actual_completion_date: completion.to_string(),
        project_latitude: lat.to_string(),
        project_longitude: lng.to_string(),
        province: province.to_string(),
        contractor: contractor.to_string(),
        type_of_work: tow.to_string(),
    }
}

fn good_raw(year: &str) -> RawRecord {
    raw(
        "Region A",
        "Luzon",
        year,
        "1,000.00",
        "800",
        "",
        "",
        "",
        "",
        "Bohol",
        "Acme",
        "Drainage",
    )
}

#[test]
fn validator_accepts_good_row() {
    let v = validate_record(&good_raw("2021"));
    assert!(v.is_valid);
    assert!(v.errors.is_empty());
}

#[test]
fn validator_rejects_year_out_of_window() {
    for y in ["2020", "2024"] {
        let v = validate_record(&good_raw(y));
        assert!(!v.is_valid);
        assert_eq!(v.errors[0], format!("Invalid FundingYear: {}", y));
        assert!(clean_record(&good_raw(y)).is_none());
    }
}

#[test]
fn validator_rejects_non_numeric_year() {
    let v = validate_record(&good_raw("20x1"));
    assert!(!v.is_valid);
    assert_eq!(v.errors[0], "Invalid FundingYear: 20x1");
    assert!(clean_record(&good_raw("20x1")).is_none());
}

#[test]
fn validator_collects_all_errors_in_order() {
    let r = raw("", "", "bad", "", "", "", "", "", "", "", "", "");
    let v = validate_record(&r);
    assert_eq!(
        v.errors,
        vec![
            "Missing Region".to_string(),
            "Missing MainIsland".to_string(),
            "Invalid FundingYear: bad".to_string(),
            "Missing ApprovedBudgetForContract".to_string(),
            "Missing ContractCost".to_string(),
        ]
    );
}

#[test]
fn year_window_is_inclusive() {
    assert!(!is_valid_year(2020));
    assert!(is_valid_year(2021));
    assert!(is_valid_year(2023));
    assert!(!is_valid_year(2024));
}

#[test]
fn clean_parses_thousands_separators() {
    // 1,234.50 reads as 1234.50, held as millionths.
    assert_eq!(validate_number("1,234.50"), Some(1_234_500_000));
}

#[test]
fn clean_treats_na_and_blank_as_absent() {
    assert_eq!(validate_number("N/A"), None);
    assert_eq!(validate_number(""), None);
    assert_eq!(validate_number("   "), None);
}

#[test]
fn clean_number_forms() {
    assert_eq!(validate_number("+5"), Some(5_000_000));
    assert_eq!(validate_number("-0.5"), Some(-500_000));
    assert_eq!(validate_number(" 1234.5678901 "), Some(1_234_567_890));
    assert_eq!(validate_number(".5"), Some(500_000));
    assert_eq!(validate_number("5."), Some(5_000_000));
    assert_eq!(validate_number("1 2"), None);
    assert_eq!(validate_number("abc"), None);
    // Beyond the representable domain of one hundred billion.
    assert_eq!(validate_number("999,999,999,999,999"), None);
}

#[test]
fn clean_record_defaults_blank_text_fields() {
    let mut r = good_raw("2021");
    r.contractor = "  ".to_string();
    r.type_of_work = String::new();
    let c = clean_record(&r).unwrap();
    assert_eq!(c.contractor, "Unknown");
    assert_eq!(c.type_of_work, "Unknown");
    assert_eq!(c.funding_year, 2021);
    assert_eq!(c.approved_budget_for_contract, 1_000_000_000);
    assert_eq!(c.contract_cost, 800_000_000);
}

#[test]
fn clean_record_drops_unparseable_required_amount() {
    let mut r = good_raw("2021");
    r.approved_budget_for_contract = "abc".to_string();
    assert!(validate_record(&r).is_valid);
    assert!(clean_record(&r).is_none());
}

#[test]
fn dates_parse_strictly() {
    assert!(validate_date("2021-01-01").is_some());
    assert!(validate_date("2021-02-30").is_none());
    assert!(validate_date("N/A").is_none());
    assert!(validate_date("").is_none());
    assert!(validate_date("01/02/2021").is_none());
}

#[test]
fn delay_is_a_day_difference() {
    let a = validate_date("2021-01-01");
    let b = validate_date("2021-01-31");
    assert_eq!(calculate_completion_delay(a, b), Some(30));
    assert_eq!(calculate_completion_delay(a, None), None);
    assert_eq!(calculate_completion_delay(None, b), None);
    // Across a month boundary and a leap year.
    let c = validate_date("2020-02-28");
    let d = validate_date("2020-03-01");
    assert_eq!(calculate_completion_delay(c, d), Some(2));
}

#[test]
fn three_row_dataset_end_to_end() {
    let rows = vec![
        good_raw("2021"),
        good_raw("2023"),
        raw(
            "",
            "Luzon",
            "2021",
            "100",
            "50",
            "",
            "",
            "",
            "",
            "Bohol",
            "Acme",
            "Drainage",
        ),
    ];
    let outcome = process_dataset(&rows, 2021, 2023);
    assert_eq!(outcome.total_rows, 3);
    assert_eq!(outcome.valid_rows, 2);
    assert_eq!(outcome.records.len(), 2);
    assert_eq!(outcome.errors.len(), 1);
    assert_eq!(outcome.errors[0], "Row 4: Missing Region");
    let r1 = generate_report1(&outcome.records);
    assert!(r1.len() <= 2);
    let sm = generate_summary(&outcome.records);
    assert_eq!(sm.total_projects, 2);
}

#[test]
fn pipeline_reports_unparseable_amounts() {
    let mut bad_budget = good_raw("2021");
    bad_budget.approved_budget_for_contract = "n/a?".to_string();
    let mut bad_cost = good_raw("2021");
    bad_cost.contract_cost = "??".to_string();
    let outcome = process_dataset(&vec![bad_budget, bad_cost], 2021, 2023);
    assert_eq!(outcome.records.len(), 0);
    assert_eq!(
        outcome.errors,
        vec![
            "Row 2: Unparseable ApprovedBudgetForContract".to_string(),
            "Row 3: Unparseable ContractCost".to_string(),
        ]
    );
}

#[test]
fn pipeline_joins_validation_messages() {
    let bad = raw(
        "",
        "",
        "2021",
        "100",
        "50",
        "",
        "",
        "",
        "",
        "",
        "",
        "",
    );
    let outcome = process_dataset(&vec![bad], 2021, 2023);
    assert_eq!(
        outcome.errors,
        vec!["Row 2: Missing Region, Missing MainIsland".to_string()]
    );
}
