use investments_forecasting::divdata::Date;
use investments_forecasting::divdata::DivDataError;
use investments_forecasting::divdata::DivPayment;
use investments_forecasting::divdata::calculate_annualized_div;
use investments_forecasting::divdata::calculate_consecutive_years_of_growth;
use investments_forecasting::divdata::calculate_dgr;
use investments_forecasting::divdata::calculate_divy;
use investments_forecasting::divdata::calculate_payout_ratio;
use investments_forecasting::divdata::date_le;
use investments_forecasting::divdata::div_payment;

fn fh(x: f64) -> i64 {
    (x * 10_000_000.0).round() as i64
}

fn round2h(v: i64) -> f64 {
    (v as f64 / 10_000_000.0 * 100.0).round() / 100.0
}

fn hist(entries: &[(&str, f64)]) -> Vec<DivPayment> {
    entries
        .iter()
        .map(|(d, a)| div_payment(d, fh(*a)).expect("valid date"))
        .collect()
}

#[test]
fn test_calulate_divy() -> Result<(), String> {
    let div_hists = hist(&[
        ("2023-01-01", 0.5),
        ("2023-04-01", 0.5),
        ("2023-07-01", 0.5),
        ("2023-11-01", 0.5),
    ]);
    assert_eq!(calculate_divy(&div_hists, fh(100.0), 2024), Ok(fh(2.0)));

    let div_hists = hist(&[
        ("2023-01-01", 1.0),
        ("2023-04-01", 1.0),
        ("2023-07-01", 2.0),
        ("2023-11-01", 4.0),
    ]);
    assert_eq!(calculate_divy(&div_hists, fh(100.0), 2024), Ok(fh(8.0)));
    Ok(())
}

#[test]
fn test_calculate_dgr() -> Result<(), String> {
    let div_hists = hist(&[
        ("2023-01-01", 0.5),
        ("2023-04-01", 0.5),
        ("2023-07-01", 0.5),
        ("2023-11-01", 0.5),
    ]);
    assert_eq!(calculate_dgr(&div_hists, 2024), Ok(0));

    let div_hists = hist(&[
        ("2023-01-01", 0.5),
        ("2023-04-01", 0.5),
        ("2023-07-01", 0.5),
        ("2023-11-01", 0.5),
        ("2022-01-01", 0.5),
        ("2022-04-01", 0.5),
        ("2022-07-01", 0.5),
        ("2022-11-01", 0.5),
    ]);
    assert_eq!(calculate_dgr(&div_hists, 2024), Ok(0));

    let div_hists = hist(&[
        ("2022-01-01", 0.1),
        ("2022-04-01", 0.9),
        ("2022-07-01", 1.0),
        ("2022-11-01", 1.0),
        ("2023-01-01", 0.5),
        ("2023-04-01", 0.5),
        ("2023-07-01", 2.0),
        ("2023-11-01", 3.0),
    ]);
    assert_eq!(calculate_dgr(&div_hists, 2024), Ok(fh(100.0)));

    let div_hists = hist(&[
        ("2022-03-01", 0.365),
        ("2022-06-01", 0.365),
        ("2022-09-01", 0.365),
        ("2022-12-01", 0.365),
        ("2023-03-01", 0.365),
        ("2023-06-01", 0.125),
        ("2023-09-01", 0.125),
        ("2023-12-01", 0.125),
        ("2024-03-01", 0.125),
    ]);
    //0.125*3.0+0.365 = 0.74
    //0.365*4.0 = 1.46
    // DGR: (0.74/1.46 - 1.0)*100.0 = -49.315068
    assert_eq!(round2h(calculate_dgr(&div_hists, 2024).unwrap()), -49.32);

    // 0.3475
    // 2.0*0.365 = 0.73
    // 0.0
    // DGR = (0.0 -1.0)*100.0 + (0.73/0.3475 - 1.0)*100.0 = 10.071942 / 2.0 = 5.04
    let div_hists = hist(&[
        ("2021-12-01", 0.3475),
        ("2022-03-01", 0.365),
        ("2022-06-01", 0.365),
    ]);
    assert_eq!(round2h(calculate_dgr(&div_hists, 2024).unwrap()), 5.04);

    // ABEV as of 28th of March 2024
    let div_hists = hist(&[
        ("1970-01-01", 0.0550986),
        ("2005-10-14", 0.005492),
        ("2006-01-05", 0.001936),
        ("2006-04-10", 0.01076),
        ("2006-07-10", 0.011932),
        ("2006-11-09", 0.0121),
        ("2007-01-08", 0.014732),
        ("2007-04-12", 0.014256),
        ("2007-06-18", 0.001926),
        ("2007-07-09", 0.0068092),
        ("2007-10-26", 0.0325832),
        ("2007-12-28", 0.010568),
        ("2008-05-08", 0.031102),
        ("2008-06-16", 0.0002936),
        ("2008-08-13", 0.0296124),
        ("2008-10-24", 0.0173388),
        ("2009-02-09", 0.0056056),
        ("2009-06-08", 0.0069884),
        ("2009-06-22", 0.0010552),
        ("2009-08-11", 0.0068696),
        ("2009-10-14", 0.0046288),
        ("2009-12-29", 0.0102084),
        ("2010-04-08", 0.0085252),
        ("2010-10-25", 0.0191172),
        ("2010-12-22", 0.0299664),
        ("2011-03-29", 0.0670016),
        ("2011-08-12", 0.0314662),
        ("2011-11-28", 0.0112554),
        ("2012-04-17", 0.0655808),
        ("2012-08-03", 0.0117658),
        ("2012-10-22", 0.0108748),
        ("2013-01-29", 0.0793902),
        ("2013-04-05", 0.0079676),
        ("2014-01-30", 0.065248),
        ("2014-05-02", 0.057983),
        ("2014-09-05", 0.026945),
        ("2014-11-24", 0.092538),
        ("2015-01-21", 0.048092),
        ("2015-02-06", 0.037219),
        ("2015-04-07", 0.027902),
        ("2015-07-09", 0.032246),
        ("2015-10-08", 0.035761),
        ("2016-01-07", 0.038278),
        ("2016-03-07", 0.032999),
        ("2016-08-05", 0.039616),
        ("2016-12-05", 0.047804),
        ("2017-01-05", 0.067134),
        ("2017-03-02", 0.022606),
        ("2017-07-24", 0.049309),
        ("2018-01-08", 0.093373),
        ("2018-03-05", 0.021539),
        ("2018-08-06", 0.042972),
        ("2019-01-07", 0.081518),
        ("2020-01-07", 0.120835),
        ("2021-01-11", 0.078966),
        ("2021-02-04", 0.01424),
        ("2022-01-06", 0.107707),
        ("2023-01-05", 0.144287),
        ("2024-01-08", 0.150969),
    ]);
    assert_eq!(round2h(calculate_dgr(&div_hists, 2024).unwrap()), 17.58);

    Ok(())
}

#[test]
fn test_calulate_payout_rate() -> Result<(), String> {
    assert_eq!(calculate_payout_ratio(fh(0.5), fh(100.0), fh(200.0)), Ok(fh(25.0)));
    Ok(())
}

#[test]
fn test_calculate_annualized_div() -> Result<(), String> {
    let div_hists = hist(&[
        ("2023-01-01", 0.5),
        ("2023-04-01", 1.0),
        ("2023-07-01", 2.0),
        ("2023-11-01", 4.0),
        ("2022-04-01", 0.3),
        ("2022-07-01", 0.3),
        ("2022-11-01", 0.2),
        ("2022-01-01", 0.1),
    ]);

    assert_eq!(calculate_annualized_div(&div_hists, 2023), Ok(fh(7.5)));
    assert_eq!(calculate_annualized_div(&div_hists, 2022), Ok(fh(0.9)));
    Ok(())
}

#[test]
fn test_calculate_consecutive_years_of_growth() -> Result<(), String> {
    let div_hists = hist(&[
        ("2023-01-01", 0.5),
        ("2023-04-01", 1.0),
        ("2023-07-01", 2.0),
        ("2023-11-01", 4.0),
        ("2022-04-01", 0.3),
        ("2022-07-01", 0.3),
        ("2022-11-01", 0.2),
        ("2022-01-01", 0.1),
    ]);
    assert_eq!(calculate_consecutive_years_of_growth(&div_hists, 2024), Ok(1));

    let div_hists = hist(&[
        ("2024-01-01", 0.5),
        ("2023-01-01", 0.5),
        ("2023-04-01", 1.0),
        ("2023-07-01", 2.0),
        ("2023-11-01", 4.0),
        ("2022-04-01", 0.3),
        ("2022-07-01", 0.3),
        ("2022-11-01", 0.2),
        ("2022-01-01", 0.1),
    ]);
    assert_eq!(calculate_consecutive_years_of_growth(&div_hists, 2024), Ok(1));

    let div_hists = hist(&[
        ("2024-01-01", 0.5),
        ("2023-01-01", 0.5),
        ("2023-04-01", 1.0),
        ("2023-07-01", 2.0),
        ("2023-11-01", 3.0),
        ("2022-04-01", 3.3),
        ("2022-07-01", 3.3),
        ("2022-11-01", 0.2),
        ("2022-01-01", 0.1),
    ]);
    assert_eq!(calculate_consecutive_years_of_growth(&div_hists, 2024), Ok(0));

    let div_hists = hist(&[
        ("2024-01-01", 0.5),
        ("2023-01-01", 2.5),
        ("2023-04-01", 1.0),
        ("2023-07-01", 2.0),
        ("2023-11-01", 3.0),
        ("2022-04-01", 2.3),
        ("2022-07-01", 3.3),
        ("2022-11-01", 0.2),
        ("2022-01-01", 0.1),
    ]);
    assert_eq!(calculate_consecutive_years_of_growth(&div_hists, 2024), Ok(1));

    Ok(())
}

#[test]
fn test_div_payment_parses_date_fields() {
    // A date text round-trips into its year, month and day parts.
    let p = div_payment("2023-04-01", fh(0.5)).unwrap();
    assert_eq!(p.date, Date { year: 2023, month: 4, day: 1 });
    assert_eq!(p.amount, fh(0.5));
    assert!(div_payment("not-a-date", 1).is_none());
    assert!(div_payment("2023-02-30", 1).is_none());
}

#[test]
fn test_date_ordering() {
    let a = Date { year: 2022, month: 12, day: 31 };
    let b = Date { year: 2023, month: 1, day: 1 };
    assert!(date_le(&a, &b));
    assert!(!date_le(&b, &a));
    assert!(date_le(&a, &a));
}

#[test]
fn test_divy_without_data() {
    let empty: Vec<DivPayment> = vec![];
    assert_eq!(calculate_divy(&empty, fh(100.0), 2024), Err(DivDataError::NoDividendData));
    // Payments only in the reference year do not count either.
    let only_current = hist(&[("2024-01-01", 0.5)]);
    assert_eq!(
        calculate_divy(&only_current, fh(100.0), 2024),
        Err(DivDataError::NoDividendData)
    );
    assert_eq!(calculate_dgr(&only_current, 2024), Err(DivDataError::NoDividendData));
    assert_eq!(
        calculate_consecutive_years_of_growth(&only_current, 2024),
        Err(DivDataError::NoDividendData)
    );
}

#[test]
fn test_annual_total_overflow_reported() {
    let huge = 6_000_000_000_000_000_000i64;
    let h = vec![
        DivPayment { date: Date { year: 2023, month: 1, day: 1 }, amount: huge },
        DivPayment { date: Date { year: 2023, month: 7, day: 1 }, amount: huge },
    ];
    assert_eq!(calculate_divy(&h, fh(100.0), 2024), Err(DivDataError::AmountOverflow));
}
