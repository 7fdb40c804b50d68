//! Imputation, the year filter, the three report generators and the
//! summary, on hand-built processed records.

use flood_pipeline::impute::{filter_by_year_range, impute_coordinates};
use flood_pipeline::records::ProcessedRecord;
use flood_pipeline::report1::generate_report1;
use flood_pipeline::report2::generate_report2;
use flood_pipeline::report3::generate_report3;
use flood_pipeline::rows::ReportRow;
use flood_pipeline::stats::{
    calculate_average, calculate_average_i64, calculate_median, calculate_percentage,
};
use flood_pipeline::summary::generate_summary;

const FX: i64 = 1_000_000;

#[allow(clippy::too_many_arguments)]
fn rec(
    region: &str,
    province: &str,
    contractor: &str,
    tow: &str,
    year: i32,
    budget: i64,
    cost: i64,
    delay: Option<i64>,
    lat: Option<i64>,
    lng: Option<i64>,
) -> ProcessedRecord {
    ProcessedRecord {
        region: region.to_string(),
        main_island: "Visayas".to_string(),
        funding_year: year,
        approved_budget_for_contract: budget,
        contract_cost: cost,
        start_date: None,
        actual_completion_date: None,
        project_latitude: lat,
        project_longitude: lng,
        province: province.to_string(),
        contractor: contractor.to_string(),
        type_of_work: tow.to_string(),
        cost_savings: budget - cost,
        completion_delay_days: delay,
    }
}

fn cell(row: &ReportRow, name: &str) -> String {
    for (k, v) in &row.cols {
        if k == name {
            return v.clone();
        }
    }
    panic!("missing column {}", name);
}

#[test]
fn imputer_fills_from_province_mean() {
    let records = vec![
        rec("R", "Bohol", "A", "T", 2021, 0, 0, None, Some(10 * FX), None),
        rec("R", "Bohol", "A", "T", 2021, 0, 0, None, Some(12 * FX), None),
        rec("R", "Bohol", "A", "T", 2021, 0, 0, None, None, None),
        rec("R", "Cebu", "A", "T", 2021, 0, 0, None, None, None),
    ];
    let out = impute_coordinates(records);
    assert_eq!(out[2].project_latitude, Some(11 * FX));
    // No known longitude anywhere in Bohol: the axis stays absent.
    assert_eq!(out[2].project_longitude, None);
    // A province with no known coordinates keeps both axes absent.
    assert_eq!(out[3].project_latitude, None);
    assert_eq!(out[3].project_longitude, None);
    // Known values are never overwritten.
    assert_eq!(out[0].project_latitude, Some(10 * FX));
}

#[test]
fn imputer_skips_blank_province() {
    let records = vec![
        rec("R", "", "A", "T", 2021, 0, 0, None, Some(10 * FX), None),
        rec("R", "", "A", "T", 2021, 0, 0, None, None, None),
    ];
    let out = impute_coordinates(records);
    assert_eq!(out[1].project_latitude, None);
}

#[test]
fn year_filter_is_inclusive() {
    let records = vec![
        rec("R", "P", "A", "T", 2020, 0, 0, None, None, None),
        rec("R", "P", "A", "T", 2021, 0, 0, None, None, None),
        rec("R", "P", "A", "T", 2023, 0, 0, None, None, None),
        rec("R", "P", "A", "T", 2024, 0, 0, None, None, None),
    ];
    let out = filter_by_year_range(records, 2021, 2023);
    assert_eq!(out.len(), 2);
    assert_eq!(out[0].funding_year, 2021);
    assert_eq!(out[1].funding_year, 2023);
}

#[test]
fn statistics_primitives() {
    assert_eq!(calculate_median(&vec![]), 0);
    assert_eq!(calculate_median(&vec![3 * FX, FX, 2 * FX]), 2 * FX);
    assert_eq!(calculate_median(&vec![2 * FX, FX]), 1_500_000);
    assert_eq!(calculate_average(&vec![]), 0);
    assert_eq!(calculate_average(&vec![FX, 2 * FX]), 1_500_000);
    assert_eq!(calculate_average_i64(&vec![10, 20]), 15 * FX);
    assert_eq!(calculate_percentage(1, 3), 33_333_333);
    assert_eq!(calculate_percentage(0, 0), 0);
    assert_eq!(calculate_percentage(2, 4), 50 * FX);
}

#[test]
fn report1_ranks_by_efficiency() {
    // Median savings 80 against an average delay of 100 days scores 80;
    // median savings 40 scores 40.
    let records = vec![
        rec("Low", "P", "A", "T", 2021, 60 * FX, 20 * FX, Some(100), None, None),
        rec("High", "P", "A", "T", 2021, 100 * FX, 20 * FX, Some(100), None, None),
    ];
    let rows = generate_report1(&records);
    assert_eq!(rows.len(), 2);
    assert_eq!(cell(&rows[0], "Region"), "High");
    assert_eq!(cell(&rows[0], "EfficiencyScore"), "80.00");
    assert_eq!(cell(&rows[1], "Region"), "Low");
    assert_eq!(cell(&rows[1], "EfficiencyScore"), "40.00");
    assert_eq!(cell(&rows[0], "MainIsland"), "Visayas");
    assert_eq!(cell(&rows[0], "TotalBudget"), "100");
    assert_eq!(cell(&rows[0], "AvgDelay"), "100.00");
    assert_eq!(cell(&rows[0], "HighDelayPct"), "100.00");
}

#[test]
fn report1_scores_zero_without_positive_delay() {
    let records = vec![rec("R", "P", "A", "T", 2021, 100 * FX, 20 * FX, None, None, None)];
    let rows = generate_report1(&records);
    assert_eq!(cell(&rows[0], "EfficiencyScore"), "0.00");
    assert_eq!(cell(&rows[0], "AvgDelay"), "0.00");
}

#[test]
fn report2_requires_five_projects() {
    let mut records = Vec::new();
    for _ in 0..5 {
        records.push(rec("R", "P", "Acme", "T", 2021, 150 * FX, 100 * FX, None, None, None));
    }
    for _ in 0..4 {
        records.push(rec("R", "P", "Beta", "T", 2021, 150 * FX, 100 * FX, None, None, None));
    }
    let rows = generate_report2(&records);
    assert_eq!(rows.len(), 1);
    assert_eq!(cell(&rows[0], "Contractor"), "Acme");
    assert_eq!(cell(&rows[0], "Rank"), "1");
    assert_eq!(cell(&rows[0], "NumProjects"), "5");
    assert_eq!(cell(&rows[0], "TotalCost"), "500");
    assert_eq!(cell(&rows[0], "TotalSavings"), "250");
    // Factor one (no delays) times savings ratio one half is fifty percent.
    assert_eq!(cell(&rows[0], "ReliabilityIndex"), "50.00");
    assert_eq!(cell(&rows[0], "RiskFlag"), "Low Risk");
}

#[test]
fn report2_ranks_by_total_cost_and_flags_risk() {
    let mut records = Vec::new();
    // Big: high cost, negative savings, long delays: high risk.
    for _ in 0..5 {
        records.push(rec("R", "P", "Big", "T", 2021, 90 * FX, 100 * FX, Some(200), None, None));
    }
    // Small: low cost, no delays, half savings: low risk.
    for _ in 0..5 {
        records.push(rec("R", "P", "Small", "T", 2021, 30 * FX, 20 * FX, None, None, None));
    }
    let rows = generate_report2(&records);
    assert_eq!(rows.len(), 2);
    assert_eq!(cell(&rows[0], "Contractor"), "Big");
    assert_eq!(cell(&rows[0], "RiskFlag"), "High Risk");
    assert_eq!(cell(&rows[0], "ReliabilityIndex"), "0.00");
    assert_eq!(cell(&rows[1], "Contractor"), "Small");
    assert_eq!(cell(&rows[1], "Rank"), "2");
    assert_eq!(cell(&rows[1], "RiskFlag"), "Low Risk");
}

#[test]
fn report2_keeps_top_fifteen() {
    let mut records = Vec::new();
    for c in 0..20i64 {
        for _ in 0..5 {
            records.push(rec(
                "R",
                "P",
                &format!("C{:02}", c),
                "T",
                2021,
                (c + 1) * FX,
                (c + 1) * FX,
                None,
                None,
                None,
            ));
        }
    }
    let rows = generate_report2(&records);
    assert_eq!(rows.len(), 15);
    assert_eq!(cell(&rows[0], "Contractor"), "C19");
    assert_eq!(cell(&rows[0], "Rank"), "1");
    assert_eq!(cell(&rows[14], "Rank"), "15");
}

#[test]
fn report3_orders_and_compares_to_baseline() {
    let records = vec![
        rec("R", "P", "A", "Dike", 2022, 30 * FX, 10 * FX, None, None, None),
        rec("R", "P", "A", "Dike", 2021, 20 * FX, 10 * FX, None, None, None),
        rec("R", "P", "A", "Bridge", 2021, 15 * FX, 20 * FX, None, None, None),
    ];
    let rows = generate_report3(&records);
    assert_eq!(rows.len(), 3);
    // Year ascending; within 2021, higher average savings first.
    assert_eq!(cell(&rows[0], "FundingYear"), "2021");
    assert_eq!(cell(&rows[0], "TypeOfWork"), "Dike");
    assert_eq!(cell(&rows[1], "TypeOfWork"), "Bridge");
    assert_eq!(cell(&rows[2], "FundingYear"), "2022");
    // The baseline year itself reports no change.
    assert_eq!(cell(&rows[0], "YoYChange"), "0.00");
    // Dike: baseline 10, then 20: a one hundred percent rise.
    assert_eq!(cell(&rows[2], "YoYChange"), "100.00");
    // Bridge overran in its only year.
    assert_eq!(cell(&rows[1], "OverrunRate"), "100.00");
    assert_eq!(cell(&rows[1], "AvgSavings"), "-5.00");
    assert_eq!(cell(&rows[0], "TotalProjects"), "1");
}

#[test]
fn report3_zero_change_without_baseline() {
    let records = vec![rec("R", "P", "A", "Dike", 2022, 30 * FX, 10 * FX, None, None, None)];
    let rows = generate_report3(&records);
    assert_eq!(cell(&rows[0], "YoYChange"), "0.00");
}

#[test]
fn reports_on_empty_dataset_are_empty() {
    let records: Vec<ProcessedRecord> = Vec::new();
    assert!(generate_report1(&records).is_empty());
    assert!(generate_report2(&records).is_empty());
    assert!(generate_report3(&records).is_empty());
    let sm = generate_summary(&records);
    assert_eq!(sm.total_projects, 0);
    assert_eq!(sm.global_avg_delay_tenths, 0);
    assert_eq!(sm.total_savings_whole, 0);
}

#[test]
fn report2_zero_cost_scores_zero() {
    let mut records = Vec::new();
    for _ in 0..5 {
        records.push(rec("R", "P", "Free", "T", 2021, 10 * FX, 0, None, None, None));
    }
    let rows = generate_report2(&records);
    assert_eq!(cell(&rows[0], "ReliabilityIndex"), "0.00");
    assert_eq!(cell(&rows[0], "RiskFlag"), "High Risk");
}

#[test]
fn summary_counts_and_totals() {
    let records = vec![
        rec("R", "Bohol", "Acme", "T", 2021, 10 * FX, 5 * FX, Some(10), None, None),
        rec("R", "Bohol", "Unknown", "T", 2021, 10 * FX, 5 * FX, Some(11), None, None),
        rec("R", "", "Acme", "T", 2021, 2 * FX + 400_000, 2 * FX, None, None, None),
        rec("R", "Cebu", "Beta", "T", 2021, 0, 0, None, None, None),
    ];
    let sm = generate_summary(&records);
    assert_eq!(sm.total_projects, 4);
    // "Unknown" and blanks are not contractors.
    assert_eq!(sm.total_contractors, 2);
    assert_eq!(sm.total_provinces, 2);
    // Mean delay 10.5 rounds half away to 10.5 tenths = 105.
    assert_eq!(sm.global_avg_delay_tenths, 105);
    // Savings 5 + 5 + 0.4 + 0 rounds to 10.
    assert_eq!(sm.total_savings_whole, 10);
}
