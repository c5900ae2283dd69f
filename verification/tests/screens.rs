use investments_forecasting::screen::analyze_div_growth;
use investments_forecasting::screen::analyze_div_yield;
use investments_forecasting::screen::analyze_dividend_payout_rate;
use investments_forecasting::table::AnalysisError;
use investments_forecasting::table::Cell;
use investments_forecasting::table::ColData;
use investments_forecasting::table::Column;
use investments_forecasting::table::Sheet;
use investments_forecasting::table::Table;
use investments_forecasting::table::load_list;
use investments_forecasting::table::row_count;

fn fx(x: f64) -> i64 {
    (x * 10_000_000.0).round() as i64
}

fn text_column(name: &str, vals: &[&str]) -> Column {
    Column {
        name: name.to_owned(),
        data: ColData::Texts(vals.iter().map(|s| Some((*s).to_owned())).collect()),
    }
}

fn float_column(name: &str, vals: &[f64]) -> Column {
    Column {
        name: name.to_owned(),
        data: ColData::Floats(vals.iter().map(|v| Some(fx(*v))).collect()),
    }
}

fn texts(t: &Table, j: usize) -> Vec<Option<String>> {
    match &t.cols[j].data {
        ColData::Texts(v) => v.clone(),
        _ => panic!("expected a text column"),
    }
}

fn floats(t: &Table, j: usize) -> Vec<Option<i64>> {
    match &t.cols[j].data {
        ColData::Floats(v) => v.clone(),
        _ => panic!("expected a numeric column"),
    }
}

fn assert_tables_equal(a: &Table, b: &Table) {
    assert_eq!(a.cols.len(), b.cols.len());
    for j in 0..a.cols.len() {
        assert_eq!(a.cols[j].name, b.cols[j].name);
        match (&a.cols[j].data, &b.cols[j].data) {
            (ColData::Floats(x), ColData::Floats(y)) => assert_eq!(x, y),
            (ColData::Texts(x), ColData::Texts(y)) => assert_eq!(x, y),
            _ => panic!("column kinds differ"),
        }
    }
}

#[test]
fn test_analyze_divy() -> Result<(), String> {
    let inflation = fx(3.4);
    let sp500_divy = fx(1.61);
    let max_divy = fx(10.0);
    let min_divy = fx(3.9);

    let df = Table {
        cols: vec![
            text_column("Symbol", &["ABM", "INTC", "CAT"]),
            float_column("Div Yield", &[5.54, 1.32, 4.0]),
        ],
    };
    let ref_df = Table {
        cols: vec![
            text_column("Symbol", &["ABM", "CAT"]),
            float_column("Div Yield", &[5.54, 4.0]),
        ],
    };

    let result = analyze_div_yield(&df, sp500_divy, inflation, min_divy, max_divy).unwrap();
    assert_tables_equal(&result, &ref_df);
    Ok(())
}

#[test]
fn test_analyze_divy_min() -> Result<(), String> {
    let inflation = fx(3.4);
    let sp500_divy = fx(1.61);
    let max_divy = fx(10.0);
    let min_divy = fx(5.0);

    let df = Table {
        cols: vec![
            text_column("Symbol", &["ABM", "INTC", "CAT"]),
            float_column("Div Yield", &[9.0, 1.32, 4.0]),
        ],
    };
    let ref_df = Table {
        cols: vec![text_column("Symbol", &["ABM"]), float_column("Div Yield", &[9.0])],
    };

    let result = analyze_div_yield(&df, sp500_divy, inflation, min_divy, max_divy).unwrap();
    assert_tables_equal(&result, &ref_df);
    Ok(())
}

#[test]
fn test_analyze_divy_max() -> Result<(), String> {
    let inflation = fx(3.4);
    let sp500_divy = fx(1.61);
    let max_divy = fx(10.0);
    let min_divy = fx(3.0);

    let df = Table {
        cols: vec![
            text_column("Symbol", &["ABM", "INTC", "CAT"]),
            float_column("Div Yield", &[11.0, 1.32, 4.0]),
        ],
    };
    let ref_df = Table {
        cols: vec![text_column("Symbol", &["CAT"]), float_column("Div Yield", &[4.0])],
    };

    let result = analyze_div_yield(&df, sp500_divy, inflation, min_divy, max_divy).unwrap();
    assert_tables_equal(&result, &ref_df);
    Ok(())
}

#[test]
fn test_analyze_divy_dpy() -> Result<(), String> {
    let max_payout_rate = fx(0.75);

    let df = Table {
        cols: vec![
            text_column("Symbol", &["ABM", "INTC", "CAT"]),
            float_column("Div Yield", &[5.54, 1.32, 4.0]),
            float_column("Current Div", &[0.54, 1.62, 0.14]),
            float_column("CF/Share", &[10.0, 2.0, 20.0]),
        ],
    };
    let ref_df = Table {
        cols: vec![
            text_column("Symbol", &["ABM", "CAT"]),
            float_column("Div Yield", &[5.54, 4.0]),
            float_column("Current Div", &[0.54, 0.14]),
            float_column("CF/Share", &[10.0, 20.0]),
        ],
    };

    let result = analyze_dividend_payout_rate(&df, max_payout_rate).unwrap();
    assert_tables_equal(&result, &ref_df);
    Ok(())
}

#[test]
fn test_analyze_div_growth() -> Result<(), String> {
    let min_growth_rate = fx(7.0);

    let df = Table {
        cols: vec![
            text_column("Symbol", &["ABM", "INTC", "CAT"]),
            float_column("Div Yield", &[5.54, 1.32, 4.0]),
            float_column("Current Div", &[0.54, 1.62, 0.14]),
            float_column("CF/Share", &[10.0, 2.0, 20.0]),
            float_column("DGR 1Y", &[7.05, 0.68, 3.94]),
            float_column("DGR 3Y", &[8.51, 0.91, 3.07]),
            float_column("DGR 5Y", &[8.96, 3.36, 5.29]),
            float_column("DGR 10Y", &[8.87, 9.34, 4.97]),
        ],
    };
    let ref_df = Table {
        cols: vec![
            text_column("Symbol", &["ABM"]),
            float_column("Div Yield", &[5.54]),
            float_column("Current Div", &[0.54]),
            float_column("CF/Share", &[10.0]),
            float_column("DGR 1Y", &[7.05]),
            float_column("DGR 3Y", &[8.51]),
            float_column("DGR 5Y", &[8.96]),
            float_column("DGR 10Y", &[8.87]),
        ],
    };

    let result = analyze_div_growth(&df, min_growth_rate).unwrap();
    assert_tables_equal(&result, &ref_df);
    Ok(())
}

#[test]
fn test_yield_screen_missing_column() {
    let df = Table { cols: vec![text_column("Symbol", &["ABM"])] };
    let r = analyze_div_yield(&df, fx(1.61), fx(3.4), fx(3.9), fx(10.0));
    assert!(matches!(r, Err(AnalysisError::MissingColumn(ref n)) if n == "Div Yield"));
}

#[test]
fn test_payout_screen_missing_column() {
    let df = Table {
        cols: vec![
            float_column("Current Div", &[0.5]),
            float_column("Div Yield", &[5.0]),
        ],
    };
    let r = analyze_dividend_payout_rate(&df, fx(0.75));
    assert!(matches!(r, Err(AnalysisError::MissingColumn(ref n)) if n == "CF/Share"));
}

#[test]
fn test_yield_screen_keeps_tied_rows_in_order() {
    // Two rows with the same yield stay in their given order.
    let df = Table {
        cols: vec![
            text_column("Symbol", &["AAA", "BBB", "CCC"]),
            float_column("Div Yield", &[5.0, 6.0, 5.0]),
        ],
    };
    let result = analyze_div_yield(&df, fx(1.61), fx(3.4), fx(3.9), fx(10.0)).unwrap();
    let syms = texts(&result, 0);
    assert_eq!(
        syms,
        vec![Some("BBB".to_owned()), Some("AAA".to_owned()), Some("CCC".to_owned())]
    );
    let ys = floats(&result, 1);
    assert_eq!(ys, vec![Some(fx(6.0)), Some(fx(5.0)), Some(fx(5.0))]);
}

#[test]
fn test_yield_screen_drops_missing_values() {
    let df = Table {
        cols: vec![Column {
            name: "Div Yield".to_owned(),
            data: ColData::Floats(vec![Some(fx(5.0)), None, Some(fx(4.5))]),
        }],
    };
    let result = analyze_div_yield(&df, fx(1.61), fx(3.4), fx(3.9), fx(10.0)).unwrap();
    assert_eq!(floats(&result, 0), vec![Some(fx(5.0)), Some(fx(4.5))]);
}

#[test]
fn test_load_list_builds_typed_table() {
    let sheets = vec![Sheet {
        name: "Champions".to_owned(),
        rows: vec![
            vec![Cell::Text("junk".to_owned())],
            vec![],
            vec![
                Cell::Text("Symbol".to_owned()),
                Cell::Text("Div Yield".to_owned()),
                Cell::Empty,
            ],
            vec![Cell::Text("ABM".to_owned()), Cell::Number(fx(5.54)), Cell::Number(fx(1.0))],
            vec![Cell::Text("CAT".to_owned()), Cell::Empty, Cell::Text(String::new())],
        ],
    }];
    let t = load_list(&sheets, "Champions").unwrap();
    assert_eq!(t.cols.len(), 3);
    assert_eq!(t.cols[0].name, "Symbol");
    assert_eq!(t.cols[1].name, "Div Yield");
    assert_eq!(t.cols[2].name, "Blended");
    assert_eq!(row_count(&t), 2);
    assert_eq!(
        texts(&t, 0),
        vec![Some("ABM".to_owned()), Some("CAT".to_owned())]
    );
    // The missing yield is kept as a missing entry, the row is not dropped.
    assert_eq!(floats(&t, 1), vec![Some(fx(5.54)), None]);
    assert_eq!(floats(&t, 2), vec![Some(fx(1.0)), None]);
}

#[test]
fn test_load_list_category_not_found() {
    let sheets = vec![Sheet { name: "Contenders".to_owned(), rows: vec![] }];
    let r = load_list(&sheets, "Champions");
    assert!(matches!(r, Err(AnalysisError::CategoryNotFound)));
}

#[test]
fn test_load_list_empty_sheet_gives_empty_table() {
    let sheets = vec![Sheet { name: "All".to_owned(), rows: vec![vec![], vec![]] }];
    let t = load_list(&sheets, "All").unwrap();
    assert_eq!(t.cols.len(), 0);
    assert_eq!(row_count(&t), 0);
}

#[test]
fn test_load_list_timestamp_makes_numeric_column() {
    let sheets = vec![Sheet {
        name: "All".to_owned(),
        rows: vec![
            vec![],
            vec![],
            vec![Cell::Text("Ex Date".to_owned())],
            vec![Cell::Timestamp(fx(45000.0))],
            vec![Cell::Text("oops".to_owned())],
        ],
    }];
    let t = load_list(&sheets, "All").unwrap();
    // First classifying cell is a timestamp, so the column is numeric and the
    // later conflicting text reads as missing.
    assert_eq!(floats(&t, 0), vec![Some(fx(45000.0)), None]);
}
