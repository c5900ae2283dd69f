//! Dividend-compounding forecast engine.
//!
//! Given a starting capital, a dividend yield/growth/share-price triple and a
//! timeline of day numbers, the engine simulates periodic dividend payouts
//! (taxed at payout time) and annual share-price and dividend growth, and
//! returns the ending stock value, the last single payout and the cumulative
//! gain recorded after every simulated day.
//!
//! The number of shares is fixed when the simulation starts; shares are never
//! bought or sold mid-run.  The simulation is a pure function of its inputs:
//! the contract pins every output to the specification model, so two runs on
//! equal inputs return equal results.

use vstd::prelude::*;

use crate::fixed::SCALE;
use crate::fixed::add_fix;
use crate::fixed::div_fix;
use crate::fixed::div_int;
use crate::fixed::fits;
use crate::fixed::fix_div;
use crate::fixed::fix_mul;
use crate::fixed::mul_fix;
use crate::fixed::round_div;
use crate::fixed::lemma_round_div_nonneg;

verus! {

/// A simulated amount left the fixed-point range.
#[derive(Clone, Copy, Debug, PartialEq, Eq, Structural)]
pub enum ForecastError {
    AmountOverflow,
}

/// State of the dividend simulation after some prefix of the timeline.
pub ghost struct SimState {
    /// Current share price.
    pub price: int,
    /// Current annual dividend per share.
    pub div: int,
    /// Cumulative dividend gain so far.
    pub gain: int,
    /// Most recent single payout.
    pub last: int,
    /// Cumulative gain recorded after each simulated day.
    pub gains: Seq<int>,
}

/// Fixed simulation parameters.
pub ghost struct SimParams {
    /// Number of shares bought on day zero.
    pub num_shares: int,
    /// Payouts per year.
    pub ncap: int,
    /// Days between payouts (`365 / ncap`, truncated).
    pub period: int,
    /// `SCALE + share_price_growth_rate`.
    pub growth_price: int,
    /// `SCALE + div_growth_rate`.
    pub growth_div: int,
    /// Tax rate withheld from each payout.
    pub tax: int,
}

/// One taxed dividend payout: `shares * div / ncap * (1 - tax)`, each step
/// rounded; `None` when an intermediate amount leaves the fixed-point range.
pub open spec fn spec_dividend_gain(num_shares: int, curr_div: int, ncap: int, tax: int) -> Option<
    int,
> {
    let t1 = fix_mul(num_shares, curr_div);
    let t2 = round_div(t1, ncap);
    let g = fix_mul(t2, SCALE - tax);
    if fits(t1) && fits(t2) && fits(g) {
        Some(g)
    } else {
        None
    }
}

/// One simulated day: a payout when the day is a multiple of the
/// capitalization period, annual growth when it is a multiple of 365, then
/// one appended point of cumulative gain.
pub open spec fn spec_sim_day(st: SimState, day: int, p: SimParams) -> Option<SimState> {
    let paid = if day % p.period == 0 {
        match spec_dividend_gain(p.num_shares, st.div, p.ncap, p.tax) {
            Some(g) => if fits(st.gain + g) {
                Some(SimState { gain: st.gain + g, last: g, ..st })
            } else {
                None
            },
            None => None,
        }
    } else {
        Some(st)
    };
    match paid {
        None => None,
        Some(s1) => {
            let grown = if day % 365 == 0 {
                let np = fix_mul(s1.price, p.growth_price);
                let nd = fix_mul(s1.div, p.growth_div);
                if fits(np) && fits(nd) {
                    Some(SimState { price: np, div: nd, ..s1 })
                } else {
                    None
                }
            } else {
                Some(s1)
            };
            match grown {
                None => None,
                Some(s2) => Some(SimState { gains: s2.gains.push(s2.gain), ..s2 }),
            }
        },
    }
}

/// The simulation state after the first `n` timeline entries.
pub open spec fn spec_sim_prefix(init: SimState, days: Seq<u32>, n: int, p: SimParams) -> Option<
    SimState,
>
    decreases n,
{
    if n <= 0 {
        Some(init)
    } else {
        match spec_sim_prefix(init, days, n - 1, p) {
            None => None,
            Some(st) => spec_sim_day(st, days[n - 1] as int, p),
        }
    }
}

/// Initial simulation state for the given inputs, or `None` when the share
/// count or the initial annual dividend leaves the fixed-point range.
pub open spec fn spec_sim_init(base_capital: int, div_yield: int, share_price: int) -> Option<
    SimState,
> {
    let ns = fix_div(base_capital, share_price);
    let d0 = fix_mul(div_yield, share_price);
    if fits(ns) && fits(d0) {
        Some(SimState { price: share_price, div: d0, gain: 0, last: 0, gains: Seq::empty() })
    } else {
        None
    }
}

/// The whole forecast: `(ending stock value, last payout, gain series)`, or
/// `None` when any simulated amount leaves the fixed-point range.
pub open spec fn spec_forecast(
    base_capital: int,
    div_yield: int,
    div_growth: int,
    share_price: int,
    price_growth: int,
    tax: int,
    days: Seq<u32>,
    ncap: int,
) -> Option<(int, int, Seq<int>)> {
    let ns = fix_div(base_capital, share_price);
    match spec_sim_init(base_capital, div_yield, share_price) {
        None => None,
        Some(init) => {
            let p = SimParams {
                num_shares: ns,
                ncap: ncap,
                period: 365int / ncap,
                growth_price: SCALE + price_growth,
                growth_div: SCALE + div_growth,
                tax: tax,
            };
            match spec_sim_prefix(init, days, days.len() as int, p) {
                None => None,
                Some(st) => {
                    let endv = fix_mul(ns, st.price);
                    if fits(endv) {
                        Some((endv, st.last, st.gains))
                    } else {
                        None
                    }
                },
            }
        },
    }
}

/// Parameter sanity shared by the engine's callers: nonnegative money and
/// rates, a positive share price, a tax rate that is a fraction of one, and a
/// payout frequency between annual and daily.
pub open spec fn spec_forecast_inputs_ok(
    base_capital: int,
    div_yield: int,
    div_growth: int,
    share_price: int,
    price_growth: int,
    tax: int,
    ncap: int,
) -> bool {
    &&& base_capital >= 0
    &&& div_yield >= 0
    &&& div_growth >= 0
    &&& share_price > 0
    &&& price_growth >= 0
    &&& 0 <= tax <= SCALE
    &&& 1 <= ncap <= 365
    &&& fits(SCALE + price_growth)
    &&& fits(SCALE + div_growth)
}

/// A product of nonnegative fixed-point numbers is nonnegative.
pub proof fn lemma_fix_mul_nonneg(a: int, b: int)
    requires
        a >= 0,
        b >= 0,
    ensures
        fix_mul(a, b) >= 0,
{
    assert(a * b >= 0) by (nonlinear_arith)
        requires
            a >= 0,
            b >= 0,
    ;
    lemma_round_div_nonneg(a * b, SCALE as int);
}

/// A payout computed from nonnegative inputs is nonnegative.
pub proof fn lemma_dividend_gain_nonneg(ns: int, cd: int, ncap: int, tax: int)
    requires
        ns >= 0,
        cd >= 0,
        ncap >= 1,
        0 <= tax <= SCALE,
    ensures
        spec_dividend_gain(ns, cd, ncap, tax) matches Some(g) ==> g >= 0,
{
    lemma_fix_mul_nonneg(ns, cd);
    let t1 = fix_mul(ns, cd);
    lemma_round_div_nonneg(t1, ncap);
    let t2 = round_div(t1, ncap);
    lemma_fix_mul_nonneg(t2, SCALE - tax);
}

/// Every state the simulation reaches from a nonnegative initial state keeps
/// nonnegative components, and its gain series has one entry per simulated
/// day, is non-decreasing, and never exceeds the running cumulative gain.
pub proof fn lemma_sim_prefix_props(init: SimState, days: Seq<u32>, n: int, p: SimParams)
    requires
        0 <= n <= days.len(),
        p.num_shares >= 0,
        p.ncap >= 1,
        p.period >= 1,
        p.growth_price >= 0,
        p.growth_div >= 0,
        0 <= p.tax <= SCALE,
        init.price >= 0,
        init.div >= 0,
        init.gain >= 0,
        init.last >= 0,
        init.gains.len() == 0,
    ensures
        spec_sim_prefix(init, days, n, p) matches Some(st) ==> {
            &&& st.price >= 0
            &&& st.div >= 0
            &&& st.gain >= 0
            &&& st.last >= 0
            &&& st.gains.len() == n
            &&& forall|i: int, j: int| 0 <= i <= j < n ==> st.gains[i] <= st.gains[j]
            &&& forall|i: int| 0 <= i < n ==> 0 <= #[trigger] st.gains[i] <= st.gain
        },
    decreases n,
{
    if n > 0 {
        lemma_sim_prefix_props(init, days, n - 1, p);
        if let Some(st) = spec_sim_prefix(init, days, n - 1, p) {
            lemma_dividend_gain_nonneg(p.num_shares, st.div, p.ncap, p.tax);
            lemma_fix_mul_nonneg(st.price, p.growth_price);
            lemma_fix_mul_nonneg(st.div, p.growth_div);
        }
    }
}

/// Once the simulation fails, every longer prefix fails as well.
pub proof fn lemma_sim_prefix_none(init: SimState, days: Seq<u32>, m: int, n: int, p: SimParams)
    requires
        0 <= m <= n,
        spec_sim_prefix(init, days, m, p) is None,
    ensures
        spec_sim_prefix(init, days, n, p) is None,
    decreases n,
{
    if n > m {
        lemma_sim_prefix_none(init, days, m, n - 1, p);
    }
}

/// Law: the forecast is a function of its inputs alone.  The executable
/// engine's contract pins its result to `spec_forecast`, so two runs on equal
/// inputs return equal results.
pub proof fn lemma_forecast_deterministic(
    base_capital: int,
    div_yield: int,
    div_growth: int,
    share_price: int,
    price_growth: int,
    tax: int,
    days1: Seq<u32>,
    days2: Seq<u32>,
    ncap: int,
)
    requires
        days1 == days2,
    ensures
        spec_forecast(base_capital, div_yield, div_growth, share_price, price_growth, tax, days1, ncap)
            == spec_forecast(
            base_capital,
            div_yield,
            div_growth,
            share_price,
            price_growth,
            tax,
            days2,
            ncap,
        ),
{
}

/// One taxed dividend payout for a fixed number of shares.
pub fn compute_dividend_gain(
    num_shares: i64,
    curr_div: i64,
    num_capitalizations: u32,
    transaction_tax: i64,
) -> (r: Option<i64>)
    requires
        1 <= num_capitalizations,
        0 <= transaction_tax <= SCALE,
    ensures
        r matches Some(v) ==> Some(v as int) == spec_dividend_gain(
            num_shares as int,
            curr_div as int,
            num_capitalizations as int,
            transaction_tax as int,
        ),
        r is Some <==> spec_dividend_gain(
            num_shares as int,
            curr_div as int,
            num_capitalizations as int,
            transaction_tax as int,
        ) is Some,
{
    let t1 = match mul_fix(num_shares, curr_div) {
        Some(v) => v,
        None => {
            return None;
        },
    };
    let t2 = match div_int(t1, num_capitalizations as i64) {
        Some(v) => v,
        None => {
            return None;
        },
    };
    mul_fix(t2, SCALE - transaction_tax)
}

/// An interest payout and the grown capital: `capital * rate / ncap * (1 -
/// tax)` added onto the capital.
pub open spec fn spec_gain(capital: int, rate: int, ncap: int, tax: int) -> Option<(int, int)> {
    match spec_dividend_gain(capital, rate, ncap, tax) {
        None => None,
        Some(g) => if fits(capital + g) {
            Some((capital + g, g))
        } else {
            None
        },
    }
}

/// One interest capitalization: returns the grown capital and the payout.
pub fn compute_gain(capital: i64, investment_rate: i64, num_capitalizations: u32, transaction_tax: i64) -> (r:
    Option<(i64, i64)>)
    requires
        1 <= num_capitalizations,
        0 <= transaction_tax <= SCALE,
    ensures
        r matches Some(v) ==> Some(((v.0 as int, v.1 as int))) == spec_gain(
            capital as int,
            investment_rate as int,
            num_capitalizations as int,
            transaction_tax as int,
        ),
        r is Some <==> spec_gain(
            capital as int,
            investment_rate as int,
            num_capitalizations as int,
            transaction_tax as int,
        ) is Some,
{
    let g = match compute_dividend_gain(capital, investment_rate, num_capitalizations, transaction_tax) {
        Some(v) => v,
        None => {
            return None;
        },
    };
    match add_fix(capital, g) {
        Some(c) => Some((c, g)),
        None => None,
    }
}

/// Simulates dividend income over the given timeline of day numbers.
///
/// Returns `(ending stock value, last single payout, cumulative gain after
/// each day)`.  The result is `Err` exactly when some simulated amount leaves
/// the fixed-point range; otherwise every output equals the specification
/// model, the gain series has one entry per timeline day and is
/// non-decreasing.
#[verifier::loop_isolation(false)]
pub fn forecast_dividend_gains(
    base_capital: i64,
    div_yield: i64,
    div_yield_growth_5y: i64,
    share_price: i64,
    share_price_growth_rate: i64,
    tax_rate: i64,
    time_line: &Vec<u32>,
    num_capitalizations: u32,
) -> (r: Result<(i64, i64, Vec<i64>), ForecastError>)
    requires
        spec_forecast_inputs_ok(
            base_capital as int,
            div_yield as int,
            div_yield_growth_5y as int,
            share_price as int,
            share_price_growth_rate as int,
            tax_rate as int,
            num_capitalizations as int,
        ),
    ensures
        r is Ok <==> spec_forecast(
            base_capital as int,
            div_yield as int,
            div_yield_growth_5y as int,
            share_price as int,
            share_price_growth_rate as int,
            tax_rate as int,
            time_line@,
            num_capitalizations as int,
        ) is Some,
        r matches Ok(out) ==> (spec_forecast(
            base_capital as int,
            div_yield as int,
            div_yield_growth_5y as int,
            share_price as int,
            share_price_growth_rate as int,
            tax_rate as int,
            time_line@,
            num_capitalizations as int,
        ) matches Some(s) && out.0 as int == s.0 && out.1 as int == s.1 && out.2@.len()
            == s.2.len() && (forall|i: int| 0 <= i < s.2.len() ==> out.2@[i] as int == s.2[i])),
        r matches Ok(out) ==> out.2@.len() == time_line@.len(),
        r matches Ok(out) ==> forall|i: int, j: int|
            0 <= i <= j < out.2@.len() ==> out.2@[i] <= out.2@[j],
{
    let ghost days = time_line@;
    let num_shares = match div_fix(base_capital, share_price) {
        Some(v) => v,
        None => {
            return Err(ForecastError::AmountOverflow);
        },
    };
    let curr_div0 = match mul_fix(div_yield, share_price) {
        Some(v) => v,
        None => {
            return Err(ForecastError::AmountOverflow);
        },
    };
    let capitalization_period: u32 = 365 / num_capitalizations;
    proof {
        assert(365int / (num_capitalizations as int) >= 1) by (nonlinear_arith)
            requires
                1 <= num_capitalizations as int <= 365,
        ;
    }
    let growth_price_f: i64 = SCALE + share_price_growth_rate;
    let growth_div_f: i64 = SCALE + div_yield_growth_5y;
    let ghost p = SimParams {
        num_shares: num_shares as int,
        ncap: num_capitalizations as int,
        period: capitalization_period as int,
        growth_price: growth_price_f as int,
        growth_div: growth_div_f as int,
        tax: tax_rate as int,
    };
    let ghost init = SimState {
        price: share_price as int,
        div: curr_div0 as int,
        gain: 0,
        last: 0,
        gains: Seq::empty(),
    };
    proof {
        assert(spec_sim_init(base_capital as int, div_yield as int, share_price as int)
            == Some(init));
    }

    let mut gains: Vec<i64> = Vec::new();
    let mut curr_gain: i64 = 0;
    let mut price: i64 = share_price;
    let mut curr_div: i64 = curr_div0;
    let mut last_gain: i64 = 0;

    let n = time_line.len();
    let mut k: usize = 0;
    while k < n
        invariant
            0 <= k <= n,
            spec_sim_prefix(init, days, k as int, p) matches Some(st) && st.price == price as int
                && st.div == curr_div as int && st.gain == curr_gain as int && st.last
                == last_gain as int && st.gains.len() == gains@.len() && (forall|i: int|
                0 <= i < st.gains.len() ==> st.gains[i] == gains@[i] as int),
        decreases n - k,
    {
        let ghost st_before = spec_sim_prefix(init, days, k as int, p).unwrap();
        let x = time_line[k];
        if x % capitalization_period == 0 {
            let g = match compute_dividend_gain(
                num_shares,
                curr_div,
                num_capitalizations,
                tax_rate,
            ) {
                Some(v) => v,
                None => {
                    proof {
                        assert(spec_sim_prefix(init, days, k + 1, p) is None);
                        lemma_sim_prefix_none(init, days, k + 1, days.len() as int, p);
                    }
                    return Err(ForecastError::AmountOverflow);
                },
            };
            curr_gain = match add_fix(curr_gain, g) {
                Some(v) => v,
                None => {
                    proof {
                        assert(spec_sim_prefix(init, days, k + 1, p) is None);
                        lemma_sim_prefix_none(init, days, k + 1, days.len() as int, p);
                    }
                    return Err(ForecastError::AmountOverflow);
                },
            };
            last_gain = g;
        }
        if x % 365 == 0 {
            let new_price = match mul_fix(price, growth_price_f) {
                Some(v) => v,
                None => {
                    proof {
                        assert(spec_sim_prefix(init, days, k + 1, p) is None);
                        lemma_sim_prefix_none(init, days, k + 1, days.len() as int, p);
                    }
                    return Err(ForecastError::AmountOverflow);
                },
            };
            let new_div = match mul_fix(curr_div, growth_div_f) {
                Some(v) => v,
                None => {
                    proof {
                        assert(spec_sim_prefix(init, days, k + 1, p) is None);
                        lemma_sim_prefix_none(init, days, k + 1, days.len() as int, p);
                    }
                    return Err(ForecastError::AmountOverflow);
                },
            };
            price = new_price;
            curr_div = new_div;
        }
        gains.push(curr_gain);
        k = k + 1;
        proof {
            assert(spec_sim_prefix(init, days, k as int, p) == spec_sim_day(
                st_before,
                days[k - 1] as int,
                p,
            ));
        }
    }

    let end_value = match mul_fix(num_shares, price) {
        Some(v) => v,
        None => {
            return Err(ForecastError::AmountOverflow);
        },
    };
    proof {
        assert(num_shares as int >= 0) by {
            lemma_round_div_nonneg(base_capital as int * SCALE, share_price as int);
        };
        assert(init.div >= 0) by {
            lemma_fix_mul_nonneg(div_yield as int, share_price as int);
        };
        lemma_sim_prefix_props(init, days, days.len() as int, p);
    }
    Ok((end_value, last_gain, gains))
}

} // verus!
