use investments_forecasting::portfolio::Currency;
use investments_forecasting::portfolio::Exchange;
use investments_forecasting::portfolio::Stock;
use investments_forecasting::portfolio::compute_yield_on_investment;
use investments_forecasting::portfolio::portfolio_summary;
use investments_forecasting::summary::lookup_forecast_params;
use investments_forecasting::summary::resolve_target;
use investments_forecasting::summary::summary_table;
use investments_forecasting::summary::Target;
use investments_forecasting::table::AnalysisError;
use investments_forecasting::table::ColData;
use investments_forecasting::table::Column;
use investments_forecasting::table::Table;

fn fp(x: f64) -> i64 {
    (x * 10_000_000.0).round() as i64
}

fn tcol(name: &str, vals: &[&str]) -> Column {
    Column {
        name: name.to_owned(),
        data: ColData::Texts(vals.iter().map(|s| Some((*s).to_owned())).collect()),
    }
}

fn fcol(name: &str, vals: &[f64]) -> Column {
    Column {
        name: name.to_owned(),
        data: ColData::Floats(vals.iter().map(|v| Some(fp(*v))).collect()),
    }
}

#[test]
fn test_compute_yeild_on_investement() -> Result<(), String> {
    assert_eq!(
        compute_yield_on_investment(fp(1000.0), fp(1200.0), fp(0.05)),
        Some(fp(0.06))
    );
    Ok(())
}

#[test]
fn test_currency_accessors() {
    let c = Currency::USD(fp(3.11));
    assert_eq!(c.value(), fp(3.11));
    assert_eq!(c.derive(fp(1.0)), Currency::USD(fp(1.0)));
    assert_eq!(
        c.derive_exchange("2024-01-02".to_owned()),
        Exchange::USD("2024-01-02".to_owned())
    );
    let e = Currency::EUR(fp(2.0));
    assert_eq!(e.derive(fp(5.0)), Currency::EUR(fp(5.0)));
}

#[test]
fn test_stock_new_and_summary() {
    let a = Stock::new("ABEV", Currency::USD(fp(3.0)), Currency::USD(fp(6.0)), fp(0.05)).unwrap();
    // yield on invested: 6 * 0.05 / 3 = 0.1; annualized: 0.05 * 6 = 0.3
    assert_eq!(a.yield_on_invested, fp(0.1));
    assert_eq!(a.annualized_dividend, Currency::USD(fp(0.3)));

    let b = Stock::new("TW10", Currency::EUR(fp(10.0)), Currency::EUR(fp(20.0)), fp(0.04)).unwrap();
    let data = vec![a, b];
    let s = portfolio_summary(&data).unwrap();
    assert_eq!(s.total_investment_usd, fp(3.0));
    assert_eq!(s.total_investment_eur, fp(10.0));
    assert_eq!(s.total_investment_pln, 0);
    assert_eq!(s.portfolio_value_usd, fp(6.0));
    assert_eq!(s.portfolio_value_eur, fp(20.0));
    assert_eq!(s.annual_dividend_usd, fp(0.3));
    assert_eq!(s.annual_dividend_eur, fp(0.8));
}

#[test]
fn test_stock_new_zero_investment_rejected() {
    assert!(Stock::new("X", Currency::USD(0), Currency::USD(fp(1.0)), fp(0.05)).is_none());
}

fn report_table() -> Table {
    Table {
        cols: vec![
            tcol("Symbol", &["ABM", "INTC", "CAT"]),
            tcol("Company", &["ABM Industries", "Intel", "Caterpillar"]),
            fcol("Current Div", &[0.54, 1.62, 0.14]),
            fcol("Div Yield", &[5.54, 1.32, 4.0]),
            fcol("Price", &[44.0, 43.0, 340.0]),
            fcol("Annualized", &[2.16, 1.62, 5.2]),
            fcol("CF/Share", &[10.0, 2.0, 20.0]),
            fcol("DGR 5Y", &[8.96, 3.36, 5.29]),
        ],
    }
}

#[test]
fn test_summary_table_single_company() {
    let t = report_table();
    let out = summary_table(&t, Some("CAT")).unwrap();
    assert_eq!(out.cols.len(), 6);
    assert_eq!(out.cols[5].name, "Div Payout Rate[%]");
    match &out.cols[0].data {
        ColData::Texts(v) => assert_eq!(v, &vec![Some("CAT".to_owned())]),
        _ => panic!("Symbol column must be text"),
    }
    match &out.cols[5].data {
        // 5.2 / 20.0 * 100 = 26.0
        ColData::Floats(v) => assert_eq!(v, &vec![Some(fp(26.0))]),
        _ => panic!("rate column must be numeric"),
    }
}

#[test]
fn test_summary_table_all_rows() {
    let t = report_table();
    let out = summary_table(&t, None).unwrap();
    match &out.cols[5].data {
        // 2.16/10*100 = 21.6; 1.62/2*100 = 81.0; 5.2/20*100 = 26.0
        ColData::Floats(v) => {
            assert_eq!(v, &vec![Some(fp(21.6)), Some(fp(81.0)), Some(fp(26.0))])
        }
        _ => panic!("rate column must be numeric"),
    }
}

#[test]
fn test_summary_table_unknown_company() {
    let t = report_table();
    assert!(matches!(
        summary_table(&t, Some("ZZZ")),
        Err(AnalysisError::EmptySelection)
    ));
}

#[test]
fn test_resolve_target() {
    let t = report_table();
    // A manual target hands its own figures through, percentages scaled down.
    let manual = Target::Manual {
        name: "REFERENCE".to_owned(),
        div_yield: fp(5.0),
        div_growth_5y: fp(10.0),
        share_price: fp(100.0),
    };
    assert_eq!(resolve_target(&manual, &t).unwrap(), (fp(100.0), fp(0.05), fp(0.10)));
    // A symbol target reads the table.
    let symbol = Target::Symbol { ticker: "CAT".to_owned() };
    assert_eq!(resolve_target(&symbol, &t).unwrap(), (fp(340.0), fp(0.04), fp(0.0529)));
}

#[test]
fn test_lookup_forecast_params() {
    let t = report_table();
    let (price, dy, dg) = lookup_forecast_params(&t, "ABM").unwrap();
    assert_eq!(price, fp(44.0));
    assert_eq!(dy, fp(0.0554));
    assert_eq!(dg, fp(0.0896));
    assert!(matches!(
        lookup_forecast_params(&t, "ZZZ"),
        Err(AnalysisError::EmptySelection)
    ));
}
