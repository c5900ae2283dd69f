//! Dividend portfolio bookkeeping: multi-currency positions and their
//! aggregated totals.
//!
//! A position records what was invested, what it is worth and its current
//! dividend yield; the derived figures (yield on the invested amount, the
//! annualized dividend) are fixed when the position is built.  The summary
//! adds the positions up per currency; currencies never mix.

use vstd::prelude::*;

use crate::fixed::fits;
use crate::fixed::fix_div;
use crate::fixed::fix_mul;
use crate::fixed::mul_fix;
use crate::fixed::div_fix;

verus! {

/// An exchange-rate request: a currency with a quote date.
#[derive(Debug, PartialEq, Eq, Hash)]
pub enum Exchange {
    /// Euro rate at the given date.
    EUR(String),
    /// Polish zloty rate at the given date.
    PLN(String),
    /// United States dollar rate at the given date.
    USD(String),
}

/// A fixed-point amount of money in a named currency.
#[derive(Debug, PartialEq, Eq, Structural, PartialOrd, Copy, Clone)]
pub enum Currency {
    /// An amount in Polish zloty.
    PLN(i64),
    /// An amount in euro.
    EUR(i64),
    /// An amount in United States dollars.
    USD(i64),
}

impl Currency {
    /// The bare amount, whatever the currency.
    pub open spec fn spec_value(self) -> i64 {
        match self {
            Currency::EUR(v) => v,
            Currency::PLN(v) => v,
            Currency::USD(v) => v,
        }
    }

    /// The bare amount, whatever the currency.
    pub fn value(&self) -> (r: i64)
        ensures
            r == self.spec_value(),
    {
        match self {
            Currency::EUR(v) => *v,
            Currency::PLN(v) => *v,
            Currency::USD(v) => *v,
        }
    }

    /// The same currency carrying the amount `val`.
    pub open spec fn spec_derive(self, val: i64) -> Currency {
        match self {
            Currency::EUR(_) => Currency::EUR(val),
            Currency::PLN(_) => Currency::PLN(val),
            Currency::USD(_) => Currency::USD(val),
        }
    }

    /// The same currency carrying the amount `val`.
    pub fn derive(&self, val: i64) -> (r: Currency)
        ensures
            r == self.spec_derive(val),
    {
        match self {
            Currency::EUR(_) => Currency::EUR(val),
            Currency::PLN(_) => Currency::PLN(val),
            Currency::USD(_) => Currency::USD(val),
        }
    }

    /// An exchange-rate request for this currency at the given date.
    pub fn derive_exchange(&self, date: String) -> (r: Exchange)
        ensures
            r == (match *self {
                Currency::EUR(_) => Exchange::EUR(date),
                Currency::PLN(_) => Exchange::PLN(date),
                Currency::USD(_) => Exchange::USD(date),
            }),
    {
        match self {
            Currency::EUR(_) => Exchange::EUR(date),
            Currency::PLN(_) => Exchange::PLN(date),
            Currency::USD(_) => Exchange::USD(date),
        }
    }
}

/// Yield earned on the invested amount:
/// `current_value * current_yield / invested_value`.
pub open spec fn spec_yield_on_investment(invested: int, current: int, yield_rate: int) -> int {
    fix_div(fix_mul(current, yield_rate), invested)
}

/// Yield earned on the invested amount.  `None` when the invested amount is
/// zero or an intermediate value leaves the fixed-point range.
pub fn compute_yield_on_investment(invested_value: i64, current_value: i64, current_yield: i64) -> (r:
    Option<i64>)
    ensures
        r matches Some(v) ==> v as int == spec_yield_on_investment(
            invested_value as int,
            current_value as int,
            current_yield as int,
        ),
        r is Some <==> (invested_value != 0 && fits(
            fix_mul(current_value as int, current_yield as int),
        ) && fits(
            spec_yield_on_investment(invested_value as int, current_value as int, current_yield as int),
        )),
{
    if invested_value == 0 {
        return None;
    }
    let t = match mul_fix(current_value, current_yield) {
        Some(v) => v,
        None => {
            return None;
        },
    };
    div_fix(t, invested_value)
}

/// One portfolio position.
#[derive(Debug, Clone)]
pub struct Stock<'a> {
    /// The ticker symbol.
    pub symbol: &'a str,
    /// The amount paid for the position.
    pub invested_value: Currency,
    /// What the position is worth now.
    pub current_value: Currency,
    /// Current dividend yield, as a fixed-point fraction.
    pub current_yield: i64,
    /// Yield earned on the invested amount.
    pub yield_on_invested: i64,
    /// Annualized dividend: the current value times the current yield.
    pub annualized_dividend: Currency,
}

impl<'a> Stock<'a> {
    /// Builds a position and fixes its derived figures.  `None` when the
    /// invested amount is zero or a derived figure leaves the fixed-point
    /// range.
    pub fn new(symbol: &'a str, invested_value: Currency, current_value: Currency, current_yield: i64) -> (r:
        Option<Stock<'a>>)
        ensures
            r matches Some(s) ==> {
                &&& s.symbol == symbol
                &&& s.invested_value == invested_value
                &&& s.current_value == current_value
                &&& s.current_yield == current_yield
                &&& s.yield_on_invested as int == spec_yield_on_investment(
                    invested_value.spec_value() as int,
                    current_value.spec_value() as int,
                    current_yield as int,
                )
                &&& s.annualized_dividend == current_value.spec_derive(
                    (fix_mul(current_yield as int, current_value.spec_value() as int)) as i64,
                )
            },
            r is Some <==> (invested_value.spec_value() != 0 && fits(
                fix_mul(current_value.spec_value() as int, current_yield as int),
            ) && fits(
                spec_yield_on_investment(
                    invested_value.spec_value() as int,
                    current_value.spec_value() as int,
                    current_yield as int,
                ),
            ) && fits(fix_mul(current_yield as int, current_value.spec_value() as int))),
    {
        let yield_on_invested = match compute_yield_on_investment(
            invested_value.value(),
            current_value.value(),
            current_yield,
        ) {
            Some(v) => v,
            None => {
                return None;
            },
        };
        let annual = match mul_fix(current_yield, current_value.value()) {
            Some(v) => v,
            None => {
                return None;
            },
        };
        Some(
            Stock {
                symbol,
                invested_value,
                current_value,
                current_yield,
                yield_on_invested,
                annualized_dividend: current_value.derive(annual),
            },
        )
    }
}

/// Per-currency totals of a portfolio.
#[derive(Debug, Clone, Copy, PartialEq, Eq, Structural)]
pub struct PortfolioSummary {
    /// Total invested, dollars.
    pub total_investment_usd: i64,
    /// Total invested, euro.
    pub total_investment_eur: i64,
    /// Total invested, zloty.
    pub total_investment_pln: i64,
    /// Portfolio worth, dollars.
    pub portfolio_value_usd: i64,
    /// Portfolio worth, euro.
    pub portfolio_value_eur: i64,
    /// Portfolio worth, zloty.
    pub portfolio_value_pln: i64,
    /// Annual dividend, dollars.
    pub annual_dividend_usd: i64,
    /// Annual dividend, euro.
    pub annual_dividend_eur: i64,
    /// Annual dividend, zloty.
    pub annual_dividend_pln: i64,
}

/// The summary's specification twin, over unbounded integers.
pub ghost struct PortfolioTotals {
    /// Total invested per currency (dollars, euro, zloty).
    pub invested: (int, int, int),
    /// Portfolio worth per currency.
    pub value: (int, int, int),
    /// Annual dividend per currency.
    pub dividend: (int, int, int),
}

/// The dollar part of an amount (zero in another currency).
pub open spec fn spec_usd_part(c: Currency) -> int {
    match c {
        Currency::USD(v) => v as int,
        _ => 0,
    }
}

/// The euro part of an amount.
pub open spec fn spec_eur_part(c: Currency) -> int {
    match c {
        Currency::EUR(v) => v as int,
        _ => 0,
    }
}

/// The zloty part of an amount.
pub open spec fn spec_pln_part(c: Currency) -> int {
    match c {
        Currency::PLN(v) => v as int,
        _ => 0,
    }
}

/// Totals of the first `n` positions.
pub open spec fn spec_portfolio_prefix(s: Seq<Stock>, n: int) -> PortfolioTotals
    decreases n,
{
    if n <= 0 {
        PortfolioTotals { invested: (0, 0, 0), value: (0, 0, 0), dividend: (0, 0, 0) }
    } else {
        let prev = spec_portfolio_prefix(s, n - 1);
        let st = s[n - 1];
        PortfolioTotals {
            invested: (
                prev.invested.0 + spec_usd_part(st.invested_value),
                prev.invested.1 + spec_eur_part(st.invested_value),
                prev.invested.2 + spec_pln_part(st.invested_value),
            ),
            value: (
                prev.value.0 + spec_usd_part(st.current_value),
                prev.value.1 + spec_eur_part(st.current_value),
                prev.value.2 + spec_pln_part(st.current_value),
            ),
            dividend: (
                prev.dividend.0 + spec_usd_part(st.annualized_dividend),
                prev.dividend.1 + spec_eur_part(st.annualized_dividend),
                prev.dividend.2 + spec_pln_part(st.annualized_dividend),
            ),
        }
    }
}

/// Whether every running total of the first `n` positions stays in the
/// fixed-point range.
pub open spec fn spec_portfolio_in_range(s: Seq<Stock>, n: int) -> bool
    decreases n,
{
    if n <= 0 {
        true
    } else {
        let t = spec_portfolio_prefix(s, n);
        &&& spec_portfolio_in_range(s, n - 1)
        &&& fits(t.invested.0) && fits(t.invested.1) && fits(t.invested.2)
        &&& fits(t.value.0) && fits(t.value.1) && fits(t.value.2)
        &&& fits(t.dividend.0) && fits(t.dividend.1) && fits(t.dividend.2)
    }
}

/// Adds the positions up per currency.  `None` when a running total leaves
/// the fixed-point range.
#[verifier::loop_isolation(false)]
pub fn portfolio_summary(data: &Vec<Stock>) -> (r: Option<PortfolioSummary>)
    ensures
        r is Some <==> spec_portfolio_in_range(data@, data@.len() as int),
        r matches Some(sm) ==> {
            let t = spec_portfolio_prefix(data@, data@.len() as int);
            &&& sm.total_investment_usd as int == t.invested.0
            &&& sm.total_investment_eur as int == t.invested.1
            &&& sm.total_investment_pln as int == t.invested.2
            &&& sm.portfolio_value_usd as int == t.value.0
            &&& sm.portfolio_value_eur as int == t.value.1
            &&& sm.portfolio_value_pln as int == t.value.2
            &&& sm.annual_dividend_usd as int == t.dividend.0
            &&& sm.annual_dividend_eur as int == t.dividend.1
            &&& sm.annual_dividend_pln as int == t.dividend.2
        },
{
    let n = data.len();
    let mut sm = PortfolioSummary {
        total_investment_usd: 0,
        total_investment_eur: 0,
        total_investment_pln: 0,
        portfolio_value_usd: 0,
        portfolio_value_eur: 0,
        portfolio_value_pln: 0,
        annual_dividend_usd: 0,
        annual_dividend_eur: 0,
        annual_dividend_pln: 0,
    };
    let mut i: usize = 0;
    while i < n
        invariant
            0 <= i <= n,
            spec_portfolio_in_range(data@, i as int),
            ({
                let t = spec_portfolio_prefix(data@, i as int);
                &&& sm.total_investment_usd as int == t.invested.0
                &&& sm.total_investment_eur as int == t.invested.1
                &&& sm.total_investment_pln as int == t.invested.2
                &&& sm.portfolio_value_usd as int == t.value.0
                &&& sm.portfolio_value_eur as int == t.value.1
                &&& sm.portfolio_value_pln as int == t.value.2
                &&& sm.annual_dividend_usd as int == t.dividend.0
                &&& sm.annual_dividend_eur as int == t.dividend.1
                &&& sm.annual_dividend_pln as int == t.dividend.2
            }),
        decreases n - i,
    {
        let st = &data[i];
        let ok1 = match st.invested_value {
            Currency::USD(v) => {
                match crate::fixed::add_fix(sm.total_investment_usd, v) {
                    Some(s) => {
                        sm.total_investment_usd = s;
                        true
                    },
                    None => false,
                }
            },
            Currency::EUR(v) => {
                match crate::fixed::add_fix(sm.total_investment_eur, v) {
                    Some(s) => {
                        sm.total_investment_eur = s;
                        true
                    },
                    None => false,
                }
            },
            Currency::PLN(v) => {
                match crate::fixed::add_fix(sm.total_investment_pln, v) {
                    Some(s) => {
                        sm.total_investment_pln = s;
                        true
                    },
                    None => false,
                }
            },
        };
        if !ok1 {
            proof {
                lemma_portfolio_out_of_range(data@, i + 1, data@.len() as int);
            }
            return None;
        }
        let ok2 = match st.current_value {
            Currency::USD(v) => {
                match crate::fixed::add_fix(sm.portfolio_value_usd, v) {
                    Some(s) => {
                        sm.portfolio_value_usd = s;
                        true
                    },
                    None => false,
                }
            },
            Currency::EUR(v) => {
                match crate::fixed::add_fix(sm.portfolio_value_eur, v) {
                    Some(s) => {
                        sm.portfolio_value_eur = s;
                        true
                    },
                    None => false,
                }
            },
            Currency::PLN(v) => {
                match crate::fixed::add_fix(sm.portfolio_value_pln, v) {
                    Some(s) => {
                        sm.portfolio_value_pln = s;
                        true
                    },
                    None => false,
                }
            },
        };
        if !ok2 {
            proof {
                lemma_portfolio_out_of_range(data@, i + 1, data@.len() as int);
            }
            return None;
        }
        let ok3 = match st.annualized_dividend {
            Currency::USD(v) => {
                match crate::fixed::add_fix(sm.annual_dividend_usd, v) {
                    Some(s) => {
                        sm.annual_dividend_usd = s;
                        true
                    },
                    None => false,
                }
            },
            Currency::EUR(v) => {
                match crate::fixed::add_fix(sm.annual_dividend_eur, v) {
                    Some(s) => {
                        sm.annual_dividend_eur = s;
                        true
                    },
                    None => false,
                }
            },
            Currency::PLN(v) => {
                match crate::fixed::add_fix(sm.annual_dividend_pln, v) {
                    Some(s) => {
                        sm.annual_dividend_pln = s;
                        true
                    },
                    None => false,
                }
            },
        };
        if !ok3 {
            proof {
                lemma_portfolio_out_of_range(data@, i + 1, data@.len() as int);
            }
            return None;
        }
        i = i + 1;
    }
    Some(sm)
}

/// Once a running total leaves the range, the whole prefix stays out.
proof fn lemma_portfolio_out_of_range(s: Seq<Stock>, m: int, n: int)
    requires
        0 < m <= n,
        !spec_portfolio_in_range(s, m),
    ensures
        !spec_portfolio_in_range(s, n),
    decreases n - m,
{
    if n > m {
        lemma_portfolio_out_of_range(s, m + 1, n);
    }
}

} // verus!
