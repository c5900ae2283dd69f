//! Savings-type instrument forecasts used as comparison baselines.
//!
//! Three capitalization regimes over a caller-supplied timeline of day
//! numbers: daily compounding with a 19% tax applied once to the final
//! cumulative gain, annual compounding (trigger on day multiples of 365) with
//! the same end-of-run tax treatment, and monthly compounding (trigger every
//! 30 days, twelve periods per year) with the 19% tax withheld from every
//! payout.  Each regime is a pure function of its inputs; the contracts pin
//! every output to its specification model.

use vstd::prelude::*;

use crate::fixed::SCALE;
use crate::fixed::add_fix;
use crate::fixed::fits;
use crate::fixed::fix_mul;
use crate::fixed::mul_fix;
use crate::fixed::sub_fix;
use crate::forecast::ForecastError;
use crate::forecast::compute_gain;
use crate::forecast::spec_gain;

verus! {

/// Tax rate applied to savings gains (19%).
pub const YEAR_END_TAX: i64 = 1_900_000;

/// State of a savings simulation after some prefix of the timeline.
pub ghost struct SavingsState {
    /// Current capital, grown by each capitalization.
    pub capital: int,
    /// Cumulative gain so far.
    pub cum: int,
    /// Cumulative gain recorded after each simulated day.
    pub gains: Seq<int>,
}

/// One simulated day: a capitalization when the day number is a multiple of
/// `modulo`, then one appended point of cumulative gain.
pub open spec fn spec_savings_day(
    st: SavingsState,
    day: int,
    rate: int,
    ncap: int,
    tax: int,
    modulo: int,
) -> Option<SavingsState> {
    let stepped = if day % modulo == 0 {
        match spec_gain(st.capital, rate, ncap, tax) {
            None => None,
            Some(cg) => if fits(st.cum + cg.1) {
                Some(SavingsState { capital: cg.0, cum: st.cum + cg.1, gains: st.gains })
            } else {
                None
            },
        }
    } else {
        Some(st)
    };
    match stepped {
        None => None,
        Some(s) => Some(SavingsState { gains: s.gains.push(s.cum), ..s }),
    }
}

/// The savings state after the first `n` timeline entries.
pub open spec fn spec_savings_prefix(
    capital: int,
    days: Seq<u32>,
    n: int,
    rate: int,
    ncap: int,
    tax: int,
    modulo: int,
) -> Option<SavingsState>
    decreases n,
{
    if n <= 0 {
        Some(SavingsState { capital: capital, cum: 0, gains: Seq::empty() })
    } else {
        match spec_savings_prefix(capital, days, n - 1, rate, ncap, tax, modulo) {
            None => None,
            Some(st) => spec_savings_day(st, days[n - 1] as int, rate, ncap, tax, modulo),
        }
    }
}

/// Once the savings simulation fails, every longer prefix fails as well.
pub proof fn lemma_savings_prefix_none(
    capital: int,
    days: Seq<u32>,
    m: int,
    n: int,
    rate: int,
    ncap: int,
    tax: int,
    modulo: int,
)
    requires
        0 <= m <= n,
        spec_savings_prefix(capital, days, m, rate, ncap, tax, modulo) is None,
    ensures
        spec_savings_prefix(capital, days, n, rate, ncap, tax, modulo) is None,
    decreases n,
{
    if n > m {
        lemma_savings_prefix_none(capital, days, m, n - 1, rate, ncap, tax, modulo);
    }
}

/// Daily compounding (365 periods a year, no per-payout tax) with the 19% tax
/// applied at the end to the capital growth and to the final gain entry.
pub open spec fn spec_revolut(capital: int, rate: int, days: Seq<u32>) -> Option<(int, Seq<int>)>
    recommends
        days.len() > 0,
{
    match spec_savings_prefix(capital, days, days.len() as int, rate, 365, 0, 1) {
        None => None,
        Some(st) => {
            let diff = st.capital - capital;
            let taxed_diff = fix_mul(diff, SCALE - YEAR_END_TAX);
            let final_cap = capital + taxed_diff;
            let taxed_gain = fix_mul(st.gains.last(), SCALE - YEAR_END_TAX);
            if fits(diff) && fits(taxed_diff) && fits(final_cap) && fits(taxed_gain) {
                Some((final_cap, st.gains.drop_last().push(taxed_gain)))
            } else {
                None
            }
        },
    }
}

/// Annual compounding (trigger on day multiples of 365, one period a year, no
/// per-payout tax) with the 19% tax applied to the final gain entry only.
pub open spec fn spec_bonds(capital: int, rate: int, days: Seq<u32>) -> Option<(int, Seq<int>)>
    recommends
        days.len() > 0,
{
    match spec_savings_prefix(capital, days, days.len() as int, rate, 1, 0, 365) {
        None => None,
        Some(st) => {
            let taxed_gain = fix_mul(st.gains.last(), SCALE - YEAR_END_TAX);
            if fits(taxed_gain) {
                Some((st.capital, st.gains.drop_last().push(taxed_gain)))
            } else {
                None
            }
        },
    }
}

/// Monthly compounding (trigger every 30 days, twelve periods a year) with
/// the 19% tax withheld from every payout.
pub open spec fn spec_santander(capital: int, rate: int, days: Seq<u32>) -> Option<(int, Seq<int>)> {
    match spec_savings_prefix(capital, days, days.len() as int, rate, 12, YEAR_END_TAX as int, 30) {
        None => None,
        Some(st) => Some((st.capital, st.gains)),
    }
}

/// Runs one savings regime over the timeline and returns the grown capital
/// and the gain series, before any end-of-run adjustment.
#[verifier::loop_isolation(false)]
fn run_savings(capital: i64, rate: i64, time_line: &Vec<u32>, ncap: u32, tax: i64, modulo: u32) -> (r:
    Result<(i64, Vec<i64>), ForecastError>)
    requires
        1 <= ncap,
        0 <= tax <= SCALE,
        modulo >= 1,
    ensures
        r is Ok <==> spec_savings_prefix(
            capital as int,
            time_line@,
            time_line@.len() as int,
            rate as int,
            ncap as int,
            tax as int,
            modulo as int,
        ) is Some,
        r matches Ok(out) ==> (spec_savings_prefix(
            capital as int,
            time_line@,
            time_line@.len() as int,
            rate as int,
            ncap as int,
            tax as int,
            modulo as int,
        ) matches Some(st) && out.0 as int == st.capital && out.1@.len() == st.gains.len() && (
        forall|i: int| 0 <= i < st.gains.len() ==> out.1@[i] as int == st.gains[i]) && (
        st.gains.len() > 0 ==> st.gains.last() == st.cum)),
{
    let ghost days = time_line@;
    let mut gains: Vec<i64> = Vec::new();
    let mut curr_capital: i64 = capital;
    let mut curr_gain: i64 = 0;

    let n = time_line.len();
    let mut k: usize = 0;
    while k < n
        invariant
            0 <= k <= n,
            spec_savings_prefix(capital as int, days, k as int, rate as int, ncap as int, tax as int, modulo as int)
                matches Some(st) && st.capital == curr_capital as int && st.cum == curr_gain as int
                && st.gains.len() == gains@.len() && (forall|i: int|
                0 <= i < st.gains.len() ==> st.gains[i] == gains@[i] as int) && (st.gains.len() > 0
                ==> st.gains.last() == st.cum),
        decreases n - k,
    {
        let ghost st_before = spec_savings_prefix(
            capital as int,
            days,
            k as int,
            rate as int,
            ncap as int,
            tax as int,
            modulo as int,
        ).unwrap();
        let x = time_line[k];
        if x % modulo == 0 {
            let cg = match compute_gain(curr_capital, rate, ncap, tax) {
                Some(v) => v,
                None => {
                    proof {
                        assert(spec_savings_prefix(capital as int, days, k + 1, rate as int, ncap as int, tax as int, modulo as int) is None);
                        lemma_savings_prefix_none(capital as int, days, k + 1, days.len() as int, rate as int, ncap as int, tax as int, modulo as int);
                    }
                    return Err(ForecastError::AmountOverflow);
                },
            };
            curr_gain = match add_fix(curr_gain, cg.1) {
                Some(v) => v,
                None => {
                    proof {
                        assert(spec_savings_prefix(capital as int, days, k + 1, rate as int, ncap as int, tax as int, modulo as int) is None);
                        lemma_savings_prefix_none(capital as int, days, k + 1, days.len() as int, rate as int, ncap as int, tax as int, modulo as int);
                    }
                    return Err(ForecastError::AmountOverflow);
                },
            };
            curr_capital = cg.0;
        }
        gains.push(curr_gain);
        k = k + 1;
        proof {
            assert(spec_savings_prefix(capital as int, days, k as int, rate as int, ncap as int, tax as int, modulo as int)
                == spec_savings_day(st_before, days[k - 1] as int, rate as int, ncap as int, tax as int, modulo as int));
        }
    }
    Ok((curr_capital, gains))
}

/// Daily compounding over the timeline, 19% tax applied once at the end to
/// the capital growth and to the final cumulative gain entry.
pub fn generate_revolut_gains(capital: i64, investment_rate: i64, time_line: &Vec<u32>) -> (r:
    Result<(i64, Vec<i64>), ForecastError>)
    requires
        time_line@.len() > 0,
    ensures
        r is Ok <==> spec_revolut(capital as int, investment_rate as int, time_line@) is Some,
        r matches Ok(out) ==> (spec_revolut(capital as int, investment_rate as int, time_line@)
            matches Some(s) && out.0 as int == s.0 && out.1@.len() == s.1.len() && (forall|i: int|
            0 <= i < s.1.len() ==> out.1@[i] as int == s.1[i])),
{
    let run = match run_savings(capital, investment_rate, time_line, 365, 0, 1) {
        Ok(v) => v,
        Err(e) => {
            return Err(e);
        },
    };
    let curr_capital = run.0;
    let mut gains = run.1;
    let diff = match sub_fix(curr_capital, capital) {
        Some(v) => v,
        None => {
            return Err(ForecastError::AmountOverflow);
        },
    };
    let taxed_diff = match mul_fix(diff, SCALE - YEAR_END_TAX) {
        Some(v) => v,
        None => {
            return Err(ForecastError::AmountOverflow);
        },
    };
    let final_cap = match add_fix(capital, taxed_diff) {
        Some(v) => v,
        None => {
            return Err(ForecastError::AmountOverflow);
        },
    };
    let last_idx = gains.len() - 1;
    let taxed_gain = match mul_fix(gains[last_idx], SCALE - YEAR_END_TAX) {
        Some(v) => v,
        None => {
            return Err(ForecastError::AmountOverflow);
        },
    };
    gains.set(last_idx, taxed_gain);
    proof {
        let s = spec_revolut(capital as int, investment_rate as int, time_line@).unwrap();
        assert(gains@.len() == s.1.len());
        assert(forall|i: int| 0 <= i < s.1.len() ==> gains@[i] as int == s.1[i]);
    }
    Ok((final_cap, gains))
}

/// Annual compounding over the timeline, 19% tax applied to the final
/// cumulative gain entry.
pub fn generate_bonds_gains(capital: i64, investment_rate: i64, time_line: &Vec<u32>) -> (r: Result<
    (i64, Vec<i64>),
    ForecastError,
>)
    requires
        time_line@.len() > 0,
    ensures
        r is Ok <==> spec_bonds(capital as int, investment_rate as int, time_line@) is Some,
        r matches Ok(out) ==> (spec_bonds(capital as int, investment_rate as int, time_line@)
            matches Some(s) && out.0 as int == s.0 && out.1@.len() == s.1.len() && (forall|i: int|
            0 <= i < s.1.len() ==> out.1@[i] as int == s.1[i])),
{
    let run = match run_savings(capital, investment_rate, time_line, 1, 0, 365) {
        Ok(v) => v,
        Err(e) => {
            return Err(e);
        },
    };
    let curr_capital = run.0;
    let mut gains = run.1;
    let last_idx = gains.len() - 1;
    let taxed_gain = match mul_fix(gains[last_idx], SCALE - YEAR_END_TAX) {
        Some(v) => v,
        None => {
            return Err(ForecastError::AmountOverflow);
        },
    };
    gains.set(last_idx, taxed_gain);
    proof {
        let s = spec_bonds(capital as int, investment_rate as int, time_line@).unwrap();
        assert(gains@.len() == s.1.len());
        assert(forall|i: int| 0 <= i < s.1.len() ==> gains@[i] as int == s.1[i]);
    }
    Ok((curr_capital, gains))
}

/// Monthly compounding over the timeline, 19% tax withheld from each payout.
pub fn generate_santander_gains(capital: i64, investment_rate: i64, time_line: &Vec<u32>) -> (r:
    Result<(i64, Vec<i64>), ForecastError>)
    ensures
        r is Ok <==> spec_santander(capital as int, investment_rate as int, time_line@) is Some,
        r matches Ok(out) ==> (spec_santander(capital as int, investment_rate as int, time_line@)
            matches Some(s) && out.0 as int == s.0 && out.1@.len() == s.1.len() && (forall|i: int|
            0 <= i < s.1.len() ==> out.1@[i] as int == s.1[i])),
{
    run_savings(capital, investment_rate, time_line, 12, YEAR_END_TAX, 30)
}

/// The timeline `1, 2, .., n` of simulated day numbers.
pub open spec fn spec_timeline(n: int) -> Seq<u32> {
    Seq::new(n as nat, |i: int| (i + 1) as u32)
}

/// Builds the timeline `1, 2, .., days`.
#[verifier::loop_isolation(false)]
pub fn make_time_line(days: u32) -> (r: Vec<u32>)
    ensures
        r@ == spec_timeline(days as int),
{
    let mut t: Vec<u32> = Vec::new();
    let mut d: u32 = 0;
    while d < days
        invariant
            0 <= d <= days,
            t@.len() == d as int,
            forall|i: int| 0 <= i < d as int ==> t@[i] == i + 1,
        decreases days - d,
    {
        t.push(d + 1);
        d = d + 1;
    }
    proof {
        assert(t@ =~= spec_timeline(days as int));
    }
    t
}

/// Annual rate of the Revolut savings account (4.05%).
pub const REVOLUT_RATE: i64 = 405_000;

/// Annual rate of treasury bonds (7.5%).
pub const OBLIGACJE_RATE: i64 = 750_000;

/// Annual rate of the Santander deposit (4%).
pub const SANTANDER_RATE: i64 = 400_000;

/// Annual rate of the Toyota Bank deposit (7%).
pub const TOYOTA_RATE: i64 = 700_000;

/// One-year comparison of the low-risk instruments.
pub struct LowRiskForecast {
    /// Ending capital of the daily-compounded account.
    pub total_revolut: i64,
    /// Gain series of the daily-compounded account.
    pub revolut_gains: Vec<i64>,
    /// Ending capital of the bonds at the higher daily-compounded rate.
    pub total_obligacje: i64,
    /// Gain series of the bonds.
    pub obligacje_gains: Vec<i64>,
    /// Ending capital of the monthly-compounded deposit.
    pub total_santander: i64,
    /// Gain series of the monthly-compounded deposit.
    pub santander_gains: Vec<i64>,
    /// Ending capital of the monthly-compounded deposit at the higher rate.
    pub total_toyota: i64,
    /// Gain series of that deposit.
    pub toyota_gains: Vec<i64>,
    /// Larger of the Santander and Revolut net gains, for chart scaling.
    pub max_range: i64,
}

/// Specification model of the one-year low-risk comparison.
pub ghost struct LowRiskModel {
    /// Daily-compounded account: ending capital and gain series.
    pub revolut: (int, Seq<int>),
    /// Bonds at the higher daily-compounded rate.
    pub obligacje: (int, Seq<int>),
    /// Monthly-compounded deposit.
    pub santander: (int, Seq<int>),
    /// Monthly-compounded deposit at the higher rate.
    pub toyota: (int, Seq<int>),
    /// Larger of the Santander and Revolut net gains.
    pub max_range: int,
}

/// The whole one-year comparison, or `None` when any simulated amount leaves
/// the fixed-point range.
pub open spec fn spec_low_risk(base: int) -> Option<LowRiskModel> {
    let days = spec_timeline(364);
    match spec_revolut(base, REVOLUT_RATE as int, days) {
        None => None,
        Some(rev) => match spec_revolut(base, OBLIGACJE_RATE as int, days) {
            None => None,
            Some(obl) => match spec_santander(base, SANTANDER_RATE as int, days) {
                None => None,
                Some(san) => match spec_santander(base, TOYOTA_RATE as int, days) {
                    None => None,
                    Some(toy) => {
                        let mr = if san.0 > rev.0 {
                            san.0 - base
                        } else {
                            rev.0 - base
                        };
                        if fits(mr) {
                            Some(
                                LowRiskModel {
                                    revolut: rev,
                                    obligacje: obl,
                                    santander: san,
                                    toyota: toy,
                                    max_range: mr,
                                },
                            )
                        } else {
                            None
                        }
                    },
                },
            },
        },
    }
}

/// Runs the four low-risk regimes over a one-year timeline and computes the
/// chart range, exactly as the specification model states.
pub fn forecast_low_risk_instruments(base_capital: i64) -> (r: Result<LowRiskForecast, ForecastError>)
    ensures
        r is Ok <==> spec_low_risk(base_capital as int) is Some,
        r matches Ok(out) ==> (spec_low_risk(base_capital as int) matches Some(m) && {
            &&& out.total_revolut as int == m.revolut.0
            &&& out.revolut_gains@.len() == m.revolut.1.len()
            &&& (forall|i: int|
                0 <= i < m.revolut.1.len() ==> out.revolut_gains@[i] as int == m.revolut.1[i])
            &&& out.total_obligacje as int == m.obligacje.0
            &&& out.obligacje_gains@.len() == m.obligacje.1.len()
            &&& (forall|i: int|
                0 <= i < m.obligacje.1.len() ==> out.obligacje_gains@[i] as int == m.obligacje.1[i])
            &&& out.total_santander as int == m.santander.0
            &&& out.santander_gains@.len() == m.santander.1.len()
            &&& (forall|i: int|
                0 <= i < m.santander.1.len() ==> out.santander_gains@[i] as int == m.santander.1[i])
            &&& out.total_toyota as int == m.toyota.0
            &&& out.toyota_gains@.len() == m.toyota.1.len()
            &&& (forall|i: int|
                0 <= i < m.toyota.1.len() ==> out.toyota_gains@[i] as int == m.toyota.1[i])
            &&& out.max_range as int == m.max_range
        }),
{
    let time_data = make_time_line(364);
    let rev = match generate_revolut_gains(base_capital, REVOLUT_RATE, &time_data) {
        Ok(v) => v,
        Err(e) => {
            return Err(e);
        },
    };
    let obl = match generate_revolut_gains(base_capital, OBLIGACJE_RATE, &time_data) {
        Ok(v) => v,
        Err(e) => {
            return Err(e);
        },
    };
    let san = match generate_santander_gains(base_capital, SANTANDER_RATE, &time_data) {
        Ok(v) => v,
        Err(e) => {
            return Err(e);
        },
    };
    let toy = match generate_santander_gains(base_capital, TOYOTA_RATE, &time_data) {
        Ok(v) => v,
        Err(e) => {
            return Err(e);
        },
    };
    let max_range = if san.0 > rev.0 {
        match sub_fix(san.0, base_capital) {
            Some(v) => v,
            None => {
                return Err(ForecastError::AmountOverflow);
            },
        }
    } else {
        match sub_fix(rev.0, base_capital) {
            Some(v) => v,
            None => {
                return Err(ForecastError::AmountOverflow);
            },
        }
    };
    Ok(
        LowRiskForecast {
            total_revolut: rev.0,
            revolut_gains: rev.1,
            total_obligacje: obl.0,
            obligacje_gains: obl.1,
            total_santander: san.0,
            santander_gains: san.1,
            total_toyota: toy.0,
            toyota_gains: toy.1,
            max_range,
        },
    )
}

} // verus!
