use investments_forecasting::forecast::compute_dividend_gain;
use investments_forecasting::forecast::compute_gain;
use investments_forecasting::forecast::forecast_dividend_gains;
use investments_forecasting::fixed::SCALE;
use investments_forecasting::fixed::mul_fix;
use investments_forecasting::lowrisk::forecast_low_risk_instruments;
use investments_forecasting::lowrisk::generate_bonds_gains;
use investments_forecasting::lowrisk::generate_revolut_gains;
use investments_forecasting::lowrisk::generate_santander_gains;
use investments_forecasting::lowrisk::make_time_line;

fn fd(x: f64) -> i64 {
    (x * 10_000_000.0).round() as i64
}

fn round2(v: i64) -> f64 {
    (v as f64 / 10_000_000.0 * 100.0).round() / 100.0
}

#[test]
fn test_ww_calculator() -> Result<(), String> {
    // 10000.0 * 0.04/365.0  = 1.0958904
    assert_eq!(
        compute_gain(fd(10000.0), fd(0.04), 365, 0).unwrap(),
        (fd(10000.0) + fd(1.09589041096), fd(1.095890410958904))
    );

    // 10000.0 * 0.04/12.0 * (1.0-0.19)= 27.0
    assert_eq!(
        compute_gain(fd(10000.0), fd(0.04), 12, fd(0.19)).unwrap(),
        (fd(10000.0) + fd(27.0), fd(27.000000000000004))
    );
    Ok(())
}

#[test]
fn test_compute_dividend_gains() -> Result<(), String> {
    let num_shares = fd(10.0);
    let div_yield_rate = fd(0.1);
    let share_price = fd(100.0);
    let num_capitalizations = 4;
    let transaction_tax = fd(0.1);

    //1000.0*0.1/(4.0)*0.9 = 25.0*0.9 = 22.5;
    let ref_gain = fd(22.5);
    let curr_div = mul_fix(share_price, div_yield_rate).unwrap();

    assert_eq!(
        ref_gain,
        compute_dividend_gain(num_shares, curr_div, num_capitalizations, transaction_tax).unwrap()
    );

    Ok(())
}

#[test]
fn test_dividend_gains() -> Result<(), String> {
    let time_data = make_time_line(365);

    let base_capital = fd(1000.0);
    let tax_rate = fd(0.15);
    let num_capitalizations: u32 = 1;
    let div_yield = fd(0.5);
    let div_yield_growth_5y = fd(0.10);
    let share_price = fd(100.0);
    let share_price_growth_rate = fd(0.1);

    // final capital : (1000.0 * (1.0 + 0.1)) = 1100.0
    let ref_final_capital = 1100.00;

    // total dividend payout : 1000.0*(0.5)*(1.0-0.15)
    let ref_total_payout = fd(425.0);

    // final payout : 1000.0*(0.5)/1.0*(1.0-0.15)
    let ref_final_payout = 425.0;

    let (final_capital, final_payout, gains) = forecast_dividend_gains(
        base_capital,
        div_yield,
        div_yield_growth_5y,
        share_price,
        share_price_growth_rate,
        tax_rate,
        &time_data,
        num_capitalizations,
    )
    .unwrap();

    assert_eq!(ref_final_capital, round2(final_capital));
    assert_eq!(ref_final_payout, round2(final_payout));
    match gains.last() {
        Some(total_payout) => {
            assert_eq!(*total_payout, ref_total_payout);
            return Ok(());
        }
        None => return Err(format!("Error: No dividend gains found!")),
    }
}

#[test]
fn test_dividend_gains_2() -> Result<(), String> {
    let time_data = make_time_line(365);

    let base_capital = fd(1000.0);
    let tax_rate = fd(0.15);
    let num_capitalizations: u32 = 4;
    let div_yield = fd(0.5);
    let div_yield_growth_5y = fd(0.10);
    let share_price = fd(100.0);
    let share_price_growth_rate = fd(0.1);

    let ref_final_capital = 1100.00;

    // total dividend payout :
    // 1000.0*0.5/4.0*(1.0-0.15) = 106.25 <- each of four payouts
    // 106.25*4.0 = 425.0
    let ref_final_payout = 106.25;
    let ref_total_payout = 425.0;

    let (final_capital, final_payout, gains) = forecast_dividend_gains(
        base_capital,
        div_yield,
        div_yield_growth_5y,
        share_price,
        share_price_growth_rate,
        tax_rate,
        &time_data,
        num_capitalizations,
    )
    .unwrap();

    assert_eq!(ref_final_payout, round2(final_payout));
    assert_eq!(ref_final_capital, round2(final_capital));
    match gains.last() {
        Some(total_payout) => {
            assert_eq!(round2(*total_payout), ref_total_payout);
            return Ok(());
        }
        None => return Err(format!("Error: No dividend gains found!")),
    }
}

#[test]
fn test_dividend_gains_3() -> Result<(), String> {
    let num_years = 2;
    let time_data = make_time_line(365 * num_years);

    let base_capital = fd(1000.0);
    let tax_rate = fd(0.15);
    let num_capitalizations: u32 = 4;
    let div_yield = fd(0.5);
    let div_yield_growth_5y = fd(0.10);
    let share_price = fd(100.0);
    let share_price_growth_rate = fd(0.1);

    // final capital : (1000.0 * (1.0 + 0.1) )*(1.0+ 0.1) =1210.0
    let ref_final_capital = 1210.00;

    // four payouts of 106.25 in the first year, four of 116.875 in the
    // second: 106.25*4.0 + 116.875*4.0 = 892.5
    let ref_total_payout = 892.5;
    let ref_final_payout = 116.88;

    let (final_capital, final_payout, gains) = forecast_dividend_gains(
        base_capital,
        div_yield,
        div_yield_growth_5y,
        share_price,
        share_price_growth_rate,
        tax_rate,
        &time_data,
        num_capitalizations,
    )
    .unwrap();

    assert_eq!(ref_final_payout, round2(final_payout));
    assert_eq!(ref_final_capital, round2(final_capital));
    match gains.last() {
        Some(total_payout) => {
            assert_eq!(round2(*total_payout), ref_total_payout);
            return Ok(());
        }
        None => return Err(format!("Error: No dividend gains found!")),
    }
}

#[test]
fn test_forecast_series_shape_and_determinism() {
    let time_data = make_time_line(400);
    let run = || {
        forecast_dividend_gains(
            fd(2500.0),
            fd(0.07),
            fd(0.05),
            fd(40.0),
            fd(0.03),
            fd(0.19),
            &time_data,
            4,
        )
        .unwrap()
    };
    let (cap1, last1, gains1) = run();
    let (cap2, last2, gains2) = run();
    // Same inputs, same outputs.
    assert_eq!(cap1, cap2);
    assert_eq!(last1, last2);
    assert_eq!(gains1, gains2);
    // One entry per simulated day, non-decreasing.
    assert_eq!(gains1.len(), 400);
    for w in gains1.windows(2) {
        assert!(w[0] <= w[1]);
    }
}

#[test]
fn test_revolut_gains_two_days() {
    // 1000 * 0.365 / 365 = 1.0 on day one, then 1.001 on day two;
    // the 19% year-end tax leaves 2.001 * 0.81 = 1.62081 and a final
    // capital of 1001.62081.
    let time_data = make_time_line(2);
    let (total, gains) = generate_revolut_gains(fd(1000.0), fd(0.365), &time_data).unwrap();
    assert_eq!(total, fd(1001.62081));
    assert_eq!(gains, vec![fd(1.0), fd(1.62081)]);
}

#[test]
fn test_bonds_gains_one_year() {
    // A single annual payout of 1000 * 0.1 = 100 on day 365; the last
    // series entry carries the 19% tax, the capital does not.
    let time_data = make_time_line(365);
    let (total, gains) = generate_bonds_gains(fd(1000.0), fd(0.1), &time_data).unwrap();
    assert_eq!(total, fd(1100.0));
    assert_eq!(gains[363], 0);
    assert_eq!(gains[364], fd(81.0));
}

#[test]
fn test_santander_gains_two_months() {
    // Payouts on days 30 and 60: 1000*0.12/12*0.81 = 8.1, then
    // 1008.1*0.01*0.81 = 8.16561.
    let time_data = make_time_line(60);
    let (total, gains) = generate_santander_gains(fd(1000.0), fd(0.12), &time_data).unwrap();
    assert_eq!(total, fd(1016.26561));
    assert_eq!(gains[29], fd(8.1));
    assert_eq!(gains[59], fd(16.26561));
}

#[test]
fn test_low_risk_comparison() {
    let f = forecast_low_risk_instruments(fd(10000.0)).unwrap();
    assert_eq!(f.total_revolut, 103338288496);
    assert_eq!(f.total_obligacje, 106290007253);
    assert_eq!(f.total_santander, 103288549667);
    assert_eq!(f.total_toyota, 105819694734);
    // Revolut ends higher than Santander here, so the range follows it.
    assert_eq!(f.max_range, f.total_revolut - fd(10000.0));
    assert_eq!(f.revolut_gains.len(), 364);
    assert_eq!(f.santander_gains.len(), 364);
}

#[test]
fn test_forecast_rejects_overflowing_run() {
    // A price growth rate of 10000% per year overflows the fixed-point
    // range within a century of compounding.
    let time_data = make_time_line(365 * 100);
    let r = forecast_dividend_gains(
        fd(1000.0),
        fd(0.5),
        100 * SCALE,
        fd(100.0),
        100 * SCALE,
        fd(0.15),
        &time_data,
        1,
    );
    assert!(r.is_err());
}
