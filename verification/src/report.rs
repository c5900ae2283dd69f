//! Payout rates computed from a company's financial reports.
//!
//! A financial report arrives re-modeled as plain values: its fiscal year,
//! its timeframe, its period dates, and the two figures the rates need (net
//! cash flow from operations and the basic average share count).  The annual
//! rate divides the fiscal year's total dividend by the cash flow per share;
//! the quarterly rate does the same with the single payment that falls
//! strictly inside the most recent finished quarter.

use vstd::prelude::*;

use crate::divdata::Date;
use crate::fixed::fits;
use crate::divdata::DivPayment;
use crate::divdata::calculate_annualized_div;
use crate::divdata::calculate_payout_ratio;
use crate::divdata::spec_date_le;
use crate::divdata::spec_payout_ratio;
use crate::divdata::spec_year_sum;
use crate::select::spec_first_from;

verus! {

/// One financial report, as plain values.
#[derive(Debug, Clone)]
pub struct FinancialReport {
    /// The company the report describes.
    pub company_name: String,
    /// The fiscal year the report covers.
    pub fiscal_year: i32,
    /// The fiscal period label.
    pub fiscal_period: String,
    /// The report timeframe: `"annual"`, `"quarterly"` or another label.
    pub timeframe: String,
    /// First day of the covered period, when the report carries one.
    pub start_date: Option<Date>,
    /// Last day of the covered period, when the report carries one.
    pub end_date: Option<Date>,
    /// Net cash flow from operating activities, when reported.
    pub net_cash_flow: Option<i64>,
    /// Basic average share count, when reported.
    pub basic_average_shares: Option<i64>,
}

/// Errors of the payout-rate computations.
#[derive(Debug, Clone, Copy, PartialEq, Eq, Structural)]
pub enum ReportError {
    /// No report of the wanted timeframe is present.
    NoFinancialReport,
    /// No payment falls inside the chosen period.
    NoDividendInPeriod,
    /// The chosen report lacks its period dates.
    MissingPeriodDates,
    /// The chosen report lacks the cash-flow figure.
    MissingCashFlow,
    /// The chosen report lacks the share count.
    MissingShares,
    /// The cash flow is zero, so no rate can be formed.
    ZeroCashFlow,
    /// A computed amount left the fixed-point range.
    AmountOverflow,
}

/// Whether end date `a` is on or after end date `b`; a report without an end
/// date never wins.
pub open spec fn spec_opt_date_ge(a: Option<Date>, b: Option<Date>) -> bool {
    match (a, b) {
        (Some(x), Some(y)) => spec_date_le(y, x),
        (Some(_), None) => true,
        (None, _) => false,
    }
}

/// Whether end date `a` is on or after end date `b`.
fn opt_date_ge(a: &Option<Date>, b: &Option<Date>) -> (r: bool)
    ensures
        r == spec_opt_date_ge(*a, *b),
{
    match (a, b) {
        (Some(x), Some(y)) => crate::divdata::date_le(y, x),
        (Some(_), None) => true,
        (None, _) => false,
    }
}

/// The report the rate uses: among the first `n` reports of the wanted
/// timeframe, the one with the latest end date, later reports winning ties.
pub open spec fn spec_pick_report(rs: Seq<FinancialReport>, tf: Seq<char>, n: int) -> Option<int>
    decreases n,
{
    if n <= 0 {
        None
    } else {
        let rest = spec_pick_report(rs, tf, n - 1);
        if rs[n - 1].timeframe@ == tf {
            match rest {
                None => Some(n - 1),
                Some(b) => if spec_opt_date_ge(rs[n - 1].end_date, rs[b].end_date) {
                    Some(n - 1)
                } else {
                    Some(b)
                },
            }
        } else {
            rest
        }
    }
}

/// Finds the report of the wanted timeframe with the latest end date.
#[verifier::loop_isolation(false)]
fn pick_report(rs: &Vec<FinancialReport>, tf: &str) -> (r: Option<usize>)
    ensures
        r matches Some(i) ==> i < rs@.len() && spec_pick_report(rs@, tf@, rs@.len() as int)
            == Some(i as int),
        r is None ==> spec_pick_report(rs@, tf@, rs@.len() as int) is None,
{
    let wanted: String = tf.to_owned();
    let n = rs.len();
    let mut best: Option<usize> = None;
    let mut i: usize = 0;
    while i < n
        invariant
            0 <= i <= n,
            best matches Some(b) ==> b < i && spec_pick_report(rs@, tf@, i as int) == Some(
                b as int,
            ),
            best is None ==> spec_pick_report(rs@, tf@, i as int) is None,
        decreases n - i,
    {
        if rs[i].timeframe == wanted {
            let take = match best {
                None => true,
                Some(b) => opt_date_ge(&rs[i].end_date, &rs[b].end_date),
            };
            if take {
                best = Some(i);
            }
        }
        i = i + 1;
    }
    best
}

/// Payout rate from the most recent annual report: the fiscal year's total
/// dividend over the cash flow per share, in percent.  `Ok(None)` when no
/// annual report exists or the chosen one reports no share count; the
/// errors name what else kept the rate from being formed.
pub fn get_annual_payout_rate(reports: &Vec<FinancialReport>, div_history: &Vec<DivPayment>) -> (r:
    Result<Option<i64>, ReportError>)
    requires
        forall|i: int| 0 <= i < div_history@.len() ==> (#[trigger] div_history@[i]).amount >= 0,
    ensures
        spec_pick_report(reports@, "annual"@, reports@.len() as int) is None ==> (r matches Ok(o)
            && o is None),
        r matches Ok(o) ==> (o is None ==> (spec_pick_report(reports@, "annual"@, reports@.len() as int)
            is None || (spec_pick_report(reports@, "annual"@, reports@.len() as int) matches Some(i)
            && reports@[i].basic_average_shares is None))),
        r matches Ok(o) ==> (o matches Some(v) ==> (spec_pick_report(
            reports@,
            "annual"@,
            reports@.len() as int,
        ) matches Some(i) && {
            let rep = reports@[i];
            &&& rep.net_cash_flow is Some && rep.net_cash_flow.unwrap() != 0
            &&& rep.basic_average_shares is Some
            &&& v as int == spec_payout_ratio(
                spec_year_sum(div_history@, rep.fiscal_year as int),
                rep.basic_average_shares.unwrap() as int,
                rep.net_cash_flow.unwrap() as int,
            )
        })),
        r matches Err(e) ==> (spec_pick_report(reports@, "annual"@, reports@.len() as int)
            matches Some(i) && {
            let rep = reports@[i];
            if !fits(spec_year_sum(div_history@, rep.fiscal_year as int)) {
                e is AmountOverflow
            } else if rep.net_cash_flow is None {
                e is MissingCashFlow
            } else if rep.net_cash_flow == Some(0i64) {
                e is ZeroCashFlow
            } else {
                e is AmountOverflow
            }
        }),
{
    let i = match pick_report(reports, "annual") {
        Some(i) => i,
        None => {
            return Ok(None);
        },
    };
    let rep = &reports[i];
    let annualized = match calculate_annualized_div(div_history, rep.fiscal_year) {
        Ok(v) => v,
        Err(_) => {
            return Err(ReportError::AmountOverflow);
        },
    };
    let net = match rep.net_cash_flow {
        Some(v) => v,
        None => {
            return Err(ReportError::MissingCashFlow);
        },
    };
    if net == 0 {
        return Err(ReportError::ZeroCashFlow);
    }
    match rep.basic_average_shares {
        None => Ok(None),
        Some(sh) => match calculate_payout_ratio(annualized, sh, net) {
            Ok(v) => Ok(Some(v)),
            Err(_) => Err(ReportError::AmountOverflow),
        },
    }
}

/// Whether the payment date lies strictly inside the period.
pub open spec fn spec_in_period(d: Date, start: Date, end: Date) -> bool {
    &&& spec_date_le(start, d) && start != d
    &&& spec_date_le(d, end) && d != end
}

/// The row predicate "this payment falls strictly inside the period".
pub open spec fn spec_period_pred(hist: Seq<DivPayment>, start: Date, end: Date) -> spec_fn(
    int,
) -> bool {
    |k: int| spec_in_period(hist[k].date, start, end)
}

/// Payout rate from the most recent finished quarter: the single payment
/// falling strictly inside the quarter over the cash flow per share, in
/// percent.
pub fn get_quaterly_payout_rate(reports: &Vec<FinancialReport>, div_history: &Vec<DivPayment>) -> (r:
    Result<i64, ReportError>)
    ensures
        r matches Ok(v) ==> (spec_pick_report(reports@, "quarterly"@, reports@.len() as int)
            matches Some(i) && {
            let rep = reports@[i];
            &&& rep.start_date is Some
            &&& rep.end_date is Some
            &&& rep.net_cash_flow is Some && rep.net_cash_flow.unwrap() != 0
            &&& rep.basic_average_shares is Some
            &&& (spec_first_from(
                div_history@.len() as int,
                0,
                spec_period_pred(div_history@, rep.start_date.unwrap(), rep.end_date.unwrap()),
            ) matches Some(j) && v as int == spec_payout_ratio(
                div_history@[j].amount as int,
                rep.basic_average_shares.unwrap() as int,
                rep.net_cash_flow.unwrap() as int,
            ))
        }),
        r matches Err(e) ==> (match spec_pick_report(reports@, "quarterly"@, reports@.len() as int) {
            None => e is NoFinancialReport,
            Some(i) => {
                let rep = reports@[i];
                if rep.start_date is None || rep.end_date is None {
                    e is MissingPeriodDates
                } else if spec_first_from(
                    div_history@.len() as int,
                    0,
                    spec_period_pred(div_history@, rep.start_date.unwrap(), rep.end_date.unwrap()),
                ) is None {
                    e is NoDividendInPeriod
                } else if rep.net_cash_flow is None {
                    e is MissingCashFlow
                } else if rep.net_cash_flow == Some(0i64) {
                    e is ZeroCashFlow
                } else if rep.basic_average_shares is None {
                    e is MissingShares
                } else {
                    e is AmountOverflow
                }
            },
        }),
{
    let i = match pick_report(reports, "quarterly") {
        Some(i) => i,
        None => {
            return Err(ReportError::NoFinancialReport);
        },
    };
    let rep = &reports[i];
    let start = match rep.start_date {
        Some(d) => d,
        None => {
            return Err(ReportError::MissingPeriodDates);
        },
    };
    let end = match rep.end_date {
        Some(d) => d,
        None => {
            return Err(ReportError::MissingPeriodDates);
        },
    };
    let j = match find_period_payment(div_history, &start, &end) {
        Some(j) => j,
        None => {
            return Err(ReportError::NoDividendInPeriod);
        },
    };
    let net = match rep.net_cash_flow {
        Some(v) => v,
        None => {
            return Err(ReportError::MissingCashFlow);
        },
    };
    if net == 0 {
        return Err(ReportError::ZeroCashFlow);
    }
    let sh = match rep.basic_average_shares {
        Some(v) => v,
        None => {
            return Err(ReportError::MissingShares);
        },
    };
    match calculate_payout_ratio(div_history[j].amount, sh, net) {
        Ok(v) => Ok(v),
        Err(_) => Err(ReportError::AmountOverflow),
    }
}

/// Finds the first payment strictly inside the period.
#[verifier::loop_isolation(false)]
fn find_period_payment(hist: &Vec<DivPayment>, start: &Date, end: &Date) -> (r: Option<usize>)
    ensures
        r matches Some(j) ==> j < hist@.len() && spec_first_from(
            hist@.len() as int,
            0,
            spec_period_pred(hist@, *start, *end),
        ) == Some(j as int),
        r is None ==> spec_first_from(
            hist@.len() as int,
            0,
            spec_period_pred(hist@, *start, *end),
        ) is None,
{
    let ghost pred = spec_period_pred(hist@, *start, *end);
    let n = hist.len();
    let mut k: usize = 0;
    while k < n
        invariant
            0 <= k <= n,
            spec_first_from(n as int, 0, pred) == spec_first_from(n as int, k as int, pred),
        decreases n - k,
    {
        let d = hist[k].date;
        let after_start = crate::divdata::date_le(start, &d) && !dates_equal(start, &d);
        let before_end = crate::divdata::date_le(&d, end) && !dates_equal(&d, end);
        if after_start && before_end {
            return Some(k);
        }
        k = k + 1;
    }
    None
}

/// Whether two dates are the same day.
fn dates_equal(a: &Date, b: &Date) -> (r: bool)
    ensures
        r == (*a == *b),
{
    a.year == b.year && a.month == b.month && a.day == b.day
}

} // verus!
