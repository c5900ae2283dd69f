use investments_forecasting::companies::companies_base_table;
use investments_forecasting::companies::sort_table_desc;
use investments_forecasting::companies::CompanyRecord;
use investments_forecasting::divdata::div_payment;
use investments_forecasting::divdata::filter_recent_years;
use investments_forecasting::divdata::latest_payment;
use investments_forecasting::divdata::sorted_div_history;
use investments_forecasting::divdata::DivPayment;
use investments_forecasting::report::get_annual_payout_rate;
use investments_forecasting::report::get_quaterly_payout_rate;
use investments_forecasting::report::FinancialReport;
use investments_forecasting::report::ReportError;
use investments_forecasting::table::ColData;

fn fr(x: f64) -> i64 {
    (x * 10_000_000.0).round() as i64
}

fn payment(d: &str, a: f64) -> DivPayment {
    div_payment(d, fr(a)).expect("valid date")
}

fn report(
    timeframe: &str,
    fiscal_year: i32,
    start: Option<&str>,
    end: Option<&str>,
    net: Option<f64>,
    shares: Option<f64>,
) -> FinancialReport {
    FinancialReport {
        company_name: "ABM Industries".to_owned(),
        fiscal_year,
        fiscal_period: "FY".to_owned(),
        timeframe: timeframe.to_owned(),
        start_date: start.map(|s| payment(s, 0.0).date),
        end_date: end.map(|s| payment(s, 0.0).date),
        net_cash_flow: net.map(fr),
        basic_average_shares: shares.map(fr),
    }
}

#[test]
fn test_annual_payout_rate_picks_latest_report() {
    let hist = vec![
        payment("2022-03-01", 0.5),
        payment("2022-09-01", 0.5),
        payment("2023-03-01", 1.0),
        payment("2023-09-01", 1.0),
    ];
    let reports = vec![
        report("annual", 2022, Some("2022-01-01"), Some("2022-12-31"), Some(100.0), Some(10.0)),
        report("annual", 2023, Some("2023-01-01"), Some("2023-12-31"), Some(100.0), Some(10.0)),
        report("quarterly", 2023, Some("2023-07-01"), Some("2023-09-30"), Some(25.0), Some(10.0)),
    ];
    // 2023 total dividend 2.0 * 10 shares / 100 cash flow * 100 = 20%
    assert_eq!(get_annual_payout_rate(&reports, &hist), Ok(Some(fr(20.0))));
}

#[test]
fn test_annual_payout_rate_without_reports() {
    let hist = vec![payment("2023-03-01", 0.5)];
    let reports: Vec<FinancialReport> = vec![];
    assert_eq!(get_annual_payout_rate(&reports, &hist), Ok(None));
}

#[test]
fn test_annual_payout_rate_without_shares() {
    let hist = vec![payment("2023-03-01", 0.5)];
    let reports = vec![report(
        "annual",
        2023,
        Some("2023-01-01"),
        Some("2023-12-31"),
        Some(100.0),
        None,
    )];
    assert_eq!(get_annual_payout_rate(&reports, &hist), Ok(None));
}

#[test]
fn test_quarterly_payout_rate() {
    let hist = vec![
        payment("2023-05-01", 0.5),
        payment("2023-08-15", 0.6),
        payment("2023-11-15", 0.7),
    ];
    let reports = vec![
        report("quarterly", 2023, Some("2023-04-01"), Some("2023-06-30"), Some(25.0), Some(10.0)),
        report("quarterly", 2023, Some("2023-07-01"), Some("2023-09-30"), Some(30.0), Some(10.0)),
    ];
    // Latest quarter ends 2023-09-30; its payment is 0.6 on 2023-08-15:
    // 0.6 * 10 / 30 * 100 = 20%
    assert_eq!(get_quaterly_payout_rate(&reports, &hist), Ok(fr(20.0)));
}

#[test]
fn test_quarterly_payout_rate_errors() {
    let hist = vec![payment("2023-01-15", 0.5)];
    let none: Vec<FinancialReport> = vec![];
    assert_eq!(
        get_quaterly_payout_rate(&none, &hist),
        Err(ReportError::NoFinancialReport)
    );
    let reports = vec![report(
        "quarterly",
        2023,
        Some("2023-07-01"),
        Some("2023-09-30"),
        Some(30.0),
        Some(10.0),
    )];
    assert_eq!(
        get_quaterly_payout_rate(&reports, &hist),
        Err(ReportError::NoDividendInPeriod)
    );
}

#[test]
fn test_sorted_div_history() {
    let hist = vec![
        payment("2023-05-01", 0.3),
        payment("2021-01-01", 0.1),
        payment("2022-06-15", 0.2),
        payment("2022-06-15", 0.25),
    ];
    let sorted = sorted_div_history(&hist);
    let dates: Vec<i32> = sorted.iter().map(|p| p.date.year).collect();
    assert_eq!(dates, vec![2021, 2022, 2022, 2023]);
    // Equal dates keep their given order.
    assert_eq!(sorted[1].amount, fr(0.2));
    assert_eq!(sorted[2].amount, fr(0.25));
    assert_eq!(latest_payment(&sorted).unwrap().amount, fr(0.3));
    assert!(latest_payment(&Vec::new()).is_none());
}

#[test]
fn test_filter_recent_years() {
    let hist = vec![
        payment("2016-01-01", 0.1),
        payment("2019-01-01", 0.2),
        payment("2023-01-01", 0.3),
    ];
    let recent = filter_recent_years(&hist, 2024);
    let years: Vec<i32> = recent.iter().map(|p| p.date.year).collect();
    // The window keeps the last five years: 2019 and 2023 stay, 2016 goes.
    assert_eq!(years, vec![2019, 2023]);
}

fn record(symbol: &str, price: f64, years: Option<i64>) -> CompanyRecord {
    CompanyRecord {
        symbol: symbol.to_owned(),
        share_price: fr(price),
        recent_div: Some(fr(0.5)),
        annual_frequency: Some(4),
        div_yield: Some(fr(4.2)),
        dgr_1y: None,
        dgr_3y: None,
        dgr_5y: Some(fr(8.0)),
        dgr_10y: Some(fr(7.0)),
        years_of_growth: years,
        payout_ratio: None,
        industry_desc: Some("Industrials".to_owned()),
    }
}

#[test]
fn test_companies_table_sorted_by_growth_years() {
    let records = vec![
        record("AAA", 10.0, Some(3)),
        record("BBB", 20.0, Some(10)),
        record("CCC", 30.0, None),
        record("DDD", 40.0, Some(7)),
    ];
    let base = companies_base_table(&records);
    assert_eq!(base.cols.len(), 12);
    assert_eq!(base.cols[9].name, "Years of consecutive Div growth");
    let sorted = sort_table_desc(&base, "Years of consecutive Div growth").unwrap();
    match &sorted.cols[0].data {
        ColData::Texts(v) => assert_eq!(
            v,
            &vec![
                Some("BBB".to_owned()),
                Some("DDD".to_owned()),
                Some("AAA".to_owned()),
                // The record without the figure sorts last.
                Some("CCC".to_owned()),
            ]
        ),
        _ => panic!("Symbol column must be text"),
    }
    match &sorted.cols[1].data {
        ColData::Floats(v) => {
            assert_eq!(v, &vec![Some(fr(20.0)), Some(fr(40.0)), Some(fr(10.0)), Some(fr(30.0))])
        }
        _ => panic!("Share Price column must be numeric"),
    }
}
