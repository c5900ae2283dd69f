//! Dividend payment history: dates, per-year aggregation, and the yield and
//! growth figures derived from it.
//!
//! A payment history is a list of `(date, amount)` pairs.  The figures ignore
//! the reference year itself (its data is incomplete) and work on the annual
//! dividend totals of the remaining years, in calendar order.  Amounts are
//! nonnegative fixed-point money.

use vstd::prelude::*;
use vstd::multiset::Multiset;

use chrono::Datelike;

use crate::fixed::SCALE;
use crate::fixed::fits;
use crate::fixed::fix_div;
use crate::fixed::round_div;
use crate::fixed::div_fix;
use crate::fixed::div_int;
use crate::fixed::mul_fix;
use crate::fixed::mul_int;
use crate::fixed::fix_mul;
use crate::fixed::sub_fix;
use crate::fixed::add_fix;

verus! {

/// A calendar date, as plain year, month and day numbers.
#[derive(Debug, Clone, Copy, PartialEq, Eq, Structural)]
pub struct Date {
    /// Calendar year.
    pub year: i32,
    /// Month, 1 to 12.
    pub month: u8,
    /// Day of month, 1 to 31.
    pub day: u8,
}

/// What `parse_iso_date` returns for a given text: parsing is a function of
/// the text alone.
pub uninterp spec fn spec_parsed_date(s: Seq<char>) -> Option<Date>;

/// Relies on `chrono::NaiveDate::parse_from_str` with the `"%Y-%m-%d"`
/// format, and on its `year`/`month`/`day` accessors: the parse depends on
/// the text alone, and chrono only constructs valid calendar dates, so a
/// parsed month lies in 1..=12 and a parsed day in 1..=31.
#[verifier::external_body]
pub fn parse_iso_date(s: &str) -> (r: Option<Date>)
    ensures
        r == spec_parsed_date(s@),
        r matches Some(d) ==> 1 <= d.month <= 12 && 1 <= d.day <= 31,
{
    match chrono::NaiveDate::parse_from_str(s, "%Y-%m-%d") {
        Ok(d) => Some(Date { year: d.year(), month: d.month() as u8, day: d.day() as u8 }),
        Err(_) => None,
    }
}

/// Whether `a` is on or before `b` in calendar order.
pub open spec fn spec_date_le(a: Date, b: Date) -> bool {
    if a.year != b.year {
        a.year < b.year
    } else if a.month != b.month {
        a.month < b.month
    } else {
        a.day <= b.day
    }
}

/// Whether `a` is on or before `b` in calendar order.
pub fn date_le(a: &Date, b: &Date) -> (r: bool)
    ensures
        r == spec_date_le(*a, *b),
{
    if a.year != b.year {
        a.year < b.year
    } else if a.month != b.month {
        a.month < b.month
    } else {
        a.day <= b.day
    }
}

/// One dividend payment: its pay date and its fixed-point amount.
#[derive(Debug, Clone, Copy, PartialEq, Eq, Structural)]
pub struct DivPayment {
    /// The pay date.
    pub date: Date,
    /// The amount paid, per share.
    pub amount: i64,
}

/// Builds a payment from a `"YYYY-MM-DD"` date text and an amount; `None`
/// when the text is not a valid date.
pub fn div_payment(date: &str, amount: i64) -> (r: Option<DivPayment>)
    ensures
        r matches Some(p) ==> spec_parsed_date(date@) == Some(p.date) && p.amount == amount,
        r is Some <==> spec_parsed_date(date@) is Some,
{
    match parse_iso_date(date) {
        Some(d) => Some(DivPayment { date: d, amount }),
        None => None,
    }
}

/// Errors of the payment-history figures.
#[derive(Debug, Clone, Copy, PartialEq, Eq, Structural)]
pub enum DivDataError {
    /// The history holds no payment outside the reference year.
    NoDividendData,
    /// A computed amount left the fixed-point range.
    AmountOverflow,
}

/// Whether some of the first `n` payments falls in year `y`.
pub open spec fn spec_has_year_prefix(hist: Seq<DivPayment>, n: int, y: int) -> bool {
    exists|i: int| 0 <= i < n && (#[trigger] hist[i].date).year == y
}

/// Whether some payment falls in year `y`.
pub open spec fn spec_has_year(hist: Seq<DivPayment>, y: int) -> bool {
    spec_has_year_prefix(hist, hist.len() as int, y)
}

/// Total paid in year `y` by the first `n` payments.
pub open spec fn spec_year_sum_prefix(hist: Seq<DivPayment>, n: int, y: int) -> int
    decreases n,
{
    if n <= 0 {
        0
    } else {
        spec_year_sum_prefix(hist, n - 1, y) + (if hist[n - 1].date.year == y {
            hist[n - 1].amount as int
        } else {
            0
        })
    }
}

/// Total paid in year `y`.
pub open spec fn spec_year_sum(hist: Seq<DivPayment>, y: int) -> int {
    spec_year_sum_prefix(hist, hist.len() as int, y)
}

/// With nonnegative amounts, a year's total only grows with the prefix.
pub proof fn lemma_year_sum_monotone(hist: Seq<DivPayment>, m: int, n: int, y: int)
    requires
        forall|i: int| 0 <= i < hist.len() ==> (#[trigger] hist[i]).amount >= 0,
        0 <= m <= n <= hist.len(),
    ensures
        spec_year_sum_prefix(hist, m, y) <= spec_year_sum_prefix(hist, n, y),
    decreases n - m,
{
    if n > m {
        lemma_year_sum_monotone(hist, m, n - 1, y);
    }
}

/// A year's total over any prefix is nonnegative.
pub proof fn lemma_year_sum_nonneg(hist: Seq<DivPayment>, n: int, y: int)
    requires
        forall|i: int| 0 <= i < hist.len() ==> (#[trigger] hist[i]).amount >= 0,
        0 <= n <= hist.len(),
    ensures
        spec_year_sum_prefix(hist, n, y) >= 0,
    decreases n,
{
    if n > 0 {
        lemma_year_sum_nonneg(hist, n - 1, y);
    }
}

/// Whether `ys` is the annual aggregation of the first `n` payments outside
/// the reference year: strictly increasing years, one entry per year that
/// occurs, each holding that year's total.
pub open spec fn spec_is_annual_prefix(
    hist: Seq<DivPayment>,
    n: int,
    cur: int,
    ys: Seq<(i32, i64)>,
) -> bool {
    &&& forall|p: int, q: int| 0 <= p < q < ys.len() ==> (#[trigger] ys[p]).0 < (#[trigger] ys[q]).0
    &&& forall|k: int|
        0 <= k < ys.len() ==> ((#[trigger] ys[k]).0 as int != cur && spec_has_year_prefix(
            hist,
            n,
            ys[k].0 as int,
        ) && ys[k].1 >= 0 && ys[k].1 as int == spec_year_sum_prefix(hist, n, ys[k].0 as int))
    &&& forall|y: int|
        (#[trigger] spec_has_year_prefix(hist, n, y) && y != cur) ==> (exists|k: int|
            0 <= k < ys.len() && (#[trigger] ys[k]).0 as int == y)
}

/// Whether `ys` is the annual aggregation of the whole history.
pub open spec fn spec_is_annual(hist: Seq<DivPayment>, cur: int, ys: Seq<(i32, i64)>) -> bool {
    spec_is_annual_prefix(hist, hist.len() as int, cur, ys)
}

/// Aggregates the history into per-year totals, skipping the reference year,
/// sorted by year ascending.  Fails with `AmountOverflow` exactly when some
/// year's total leaves the fixed-point range.
#[verifier::loop_isolation(false)]
pub fn annual_dividends(hist: &Vec<DivPayment>, current_year: i32) -> (r: Result<
    Vec<(i32, i64)>,
    DivDataError,
>)
    requires
        forall|i: int| 0 <= i < hist@.len() ==> (#[trigger] hist@[i]).amount >= 0,
    ensures
        r matches Ok(v) ==> spec_is_annual(hist@, current_year as int, v@),
        r is Ok <==> (forall|y: int|
            (spec_has_year(hist@, y) && y != current_year as int) ==> fits(
                #[trigger] spec_year_sum(hist@, y),
            )),
        r matches Err(e) ==> e is AmountOverflow,
{
    let n = hist.len();
    let mut acc: Vec<(i32, i64)> = Vec::new();
    let mut i: usize = 0;
    while i < n
        invariant
            0 <= i <= n,
            spec_is_annual_prefix(hist@, i as int, current_year as int, acc@),
        decreases n - i,
    {
        let p = hist[i];
        let yy = p.date.year;
        let ghost old_acc = acc@;
        if yy != current_year {
            let alen = acc.len();
            let mut k: usize = 0;
            while k < alen
                invariant
                    0 <= k <= alen,
                    alen == acc@.len(),
                    forall|m: int| 0 <= m < k ==> (#[trigger] acc@[m]).0 < yy,
                decreases alen - k,
            {
                if acc[k].0 >= yy {
                    break;
                }
                k = k + 1;
            }
            proof {
                assert(k < alen ==> acc@[k as int].0 >= yy);
            }
            if k < alen && acc[k].0 == yy {
                let s = acc[k].1;
                let ns = match s.checked_add(p.amount) {
                    Some(v) => v,
                    None => {
                        proof {
                            let y = yy as int;
                            assert(spec_year_sum_prefix(hist@, i + 1, y) == s + p.amount);
                            lemma_year_sum_monotone(hist@, i + 1, hist@.len() as int, y);
                            assert(spec_year_sum(hist@, y) > 0x7fff_ffff_ffff_ffff);
                            assert(spec_has_year_prefix(hist@, hist@.len() as int, y)) by {
                                assert(hist@[i as int].date.year == y);
                            }
                        }
                        return Err(DivDataError::AmountOverflow);
                    },
                };
                acc.set(k, (yy, ns));
                proof {
                    assert forall|y: int|
                        #[trigger] spec_has_year_prefix(hist@, i + 1, y) && y != current_year as int
                            implies (exists|m: int|
                        0 <= m < acc@.len() && (#[trigger] acc@[m]).0 as int == y) by {
                        let w = choose|w: int|
                            0 <= w < i + 1 && (#[trigger] hist@[w].date).year == y;
                        if w < i {
                            assert(spec_has_year_prefix(hist@, i as int, y));
                            let m = choose|m: int|
                                0 <= m < old_acc.len() && (#[trigger] old_acc[m]).0 as int == y;
                            assert(acc@[m].0 as int == y);
                        } else {
                            assert(acc@[k as int].0 as int == y);
                        }
                    }
                    assert forall|m: int| 0 <= m < acc@.len() implies ((#[trigger] acc@[m]).0 as int
                        != current_year as int && spec_has_year_prefix(
                        hist@,
                        i + 1,
                        acc@[m].0 as int,
                    ) && acc@[m].1 >= 0 && acc@[m].1 as int == spec_year_sum_prefix(
                        hist@,
                        i + 1,
                        acc@[m].0 as int,
                    )) by {
                        if m != k {
                            assert(acc@[m] == old_acc[m]);
                            assert(old_acc[m].0 != yy);
                        }
                        let w = choose|w: int|
                            0 <= w < i && (#[trigger] hist@[w].date).year == acc@[m].0 as int;
                        assert(0 <= w < i + 1 && hist@[w].date.year == acc@[m].0 as int);
                    }
                }
            } else {
                acc.insert(k, (yy, p.amount));
                proof {
                    old_acc.insert_ensures(k as int, (yy, p.amount));
                    assert forall|pp: int, qq: int| 0 <= pp < qq < acc@.len() implies (
                    #[trigger] acc@[pp]).0 < (#[trigger] acc@[qq]).0 by {
                        assert(acc@[pp] == (if pp < k {
                            old_acc[pp]
                        } else if pp == k {
                            (yy, p.amount)
                        } else {
                            old_acc[pp - 1]
                        }));
                        assert(acc@[qq] == (if qq < k {
                            old_acc[qq]
                        } else if qq == k {
                            (yy, p.amount)
                        } else {
                            old_acc[qq - 1]
                        }));
                        if k < alen {
                            assert(old_acc[k as int].0 > yy || old_acc[k as int].0 == yy);
                            assert(old_acc[k as int].0 != yy);
                        }
                    }
                    assert forall|y: int|
                        #[trigger] spec_has_year_prefix(hist@, i + 1, y) && y != current_year as int
                            implies (exists|m: int|
                        0 <= m < acc@.len() && (#[trigger] acc@[m]).0 as int == y) by {
                        let w = choose|w: int|
                            0 <= w < i + 1 && (#[trigger] hist@[w].date).year == y;
                        if w < i {
                            assert(spec_has_year_prefix(hist@, i as int, y));
                            let m = choose|m: int|
                                0 <= m < old_acc.len() && (#[trigger] old_acc[m]).0 as int == y;
                            if m < k {
                                assert(acc@[m].0 as int == y);
                            } else {
                                assert(acc@[m + 1].0 as int == y);
                            }
                        } else {
                            assert(acc@[k as int].0 as int == y);
                        }
                    }
                    assert forall|m: int| 0 <= m < acc@.len() implies ((#[trigger] acc@[m]).0 as int
                        != current_year as int && spec_has_year_prefix(
                        hist@,
                        i + 1,
                        acc@[m].0 as int,
                    ) && acc@[m].1 >= 0 && acc@[m].1 as int == spec_year_sum_prefix(
                        hist@,
                        i + 1,
                        acc@[m].0 as int,
                    )) by {
                        if m == k {
                            assert(acc@[m] == (yy, p.amount));
                            assert(hist@[i as int].date.year == yy as int);
                            if spec_has_year_prefix(hist@, i as int, yy as int) {
                                let w = choose|w: int|
                                    0 <= w < old_acc.len() && (#[trigger] old_acc[w]).0 as int
                                        == yy as int;
                                assert(false);
                            }
                            assert(spec_year_sum_prefix(hist@, i as int, yy as int) == 0) by {
                                lemma_year_sum_no_year(hist@, i as int, yy as int);
                            }
                        } else {
                            let o = if m < k {
                                m
                            } else {
                                m - 1
                            };
                            assert(acc@[m] == old_acc[o]);
                            assert(old_acc[o].0 != yy);
                            let w = choose|w: int|
                                0 <= w < i && (#[trigger] hist@[w].date).year == old_acc[o].0 as int;
                            assert(0 <= w < i + 1 && hist@[w].date.year == acc@[m].0 as int);
                        }
                    }
                }
            }
        } else {
            proof {
                assert forall|y: int|
                    #[trigger] spec_has_year_prefix(hist@, i + 1, y) && y != current_year as int
                        implies (exists|m: int|
                    0 <= m < acc@.len() && (#[trigger] acc@[m]).0 as int == y) by {
                    let w = choose|w: int| 0 <= w < i + 1 && (#[trigger] hist@[w].date).year == y;
                    assert(0 <= w < i && hist@[w].date.year == y);
                    assert(spec_has_year_prefix(hist@, i as int, y));
                }
            }
        }
        i = i + 1;
    }
    proof {
        assert forall|y: int|
            spec_has_year(hist@, y) && y != current_year as int implies fits(
            #[trigger] spec_year_sum(hist@, y),
        ) by {
            let m = choose|m: int| 0 <= m < acc@.len() && (#[trigger] acc@[m]).0 as int == y;
            assert(acc@[m].1 as int == spec_year_sum(hist@, y));
            lemma_year_sum_nonneg(hist@, hist@.len() as int, y);
        }
    }
    Ok(acc)
}

/// Helper: the first `k` entries of two annual aggregations agree.
proof fn lemma_annual_eq_upto(
    hist: Seq<DivPayment>,
    cur: int,
    a: Seq<(i32, i64)>,
    b: Seq<(i32, i64)>,
    k: int,
)
    requires
        spec_is_annual(hist, cur, a),
        spec_is_annual(hist, cur, b),
        0 <= k <= a.len(),
        k <= b.len(),
    ensures
        forall|j: int| 0 <= j < k ==> a[j] == b[j],
    decreases k,
{
    if k > 0 {
        lemma_annual_eq_upto(hist, cur, a, b, k - 1);
        let ya = a[k - 1].0 as int;
        assert(spec_has_year_prefix(hist, hist.len() as int, ya));
        let m = choose|m: int| 0 <= m < b.len() && (#[trigger] b[m]).0 as int == ya;
        if m < k - 1 {
            assert(a[m] == b[m]);
            assert(false);
        }
        if m > k - 1 {
            let yb = b[k - 1].0 as int;
            assert(yb < ya);
            assert(spec_has_year_prefix(hist, hist.len() as int, yb));
            let t = choose|t: int| 0 <= t < a.len() && (#[trigger] a[t]).0 as int == yb;
            if t < k - 1 {
                assert(a[t] == b[t]);
                assert(false);
            } else {
                assert(a[t].0 >= a[k - 1].0);
                assert(false);
            }
        }
        assert(b[k - 1].0 == a[k - 1].0);
        assert(a[k - 1].1 as int == spec_year_sum(hist, ya));
        assert(b[k - 1].1 as int == spec_year_sum(hist, ya));
    }
}

/// Law: the annual aggregation is unique — any two sequences satisfying its
/// characterization are equal, so the contracts that quantify over it pin a
/// single value.
pub proof fn lemma_annual_unique(
    hist: Seq<DivPayment>,
    cur: int,
    a: Seq<(i32, i64)>,
    b: Seq<(i32, i64)>,
)
    requires
        spec_is_annual(hist, cur, a),
        spec_is_annual(hist, cur, b),
    ensures
        a == b,
{
    if a.len() < b.len() {
        lemma_annual_eq_upto(hist, cur, a, b, a.len() as int);
        let y = b[a.len() as int].0 as int;
        assert(spec_has_year_prefix(hist, hist.len() as int, y));
        let t = choose|t: int| 0 <= t < a.len() && (#[trigger] a[t]).0 as int == y;
        assert(a[t] == b[t]);
        assert(b[t].0 as int == y && t < a.len() as int);
        assert(false);
    }
    if b.len() < a.len() {
        lemma_annual_eq_upto(hist, cur, a, b, b.len() as int);
        let y = a[b.len() as int].0 as int;
        assert(spec_has_year_prefix(hist, hist.len() as int, y));
        let t = choose|t: int| 0 <= t < b.len() && (#[trigger] b[t]).0 as int == y;
        assert(a[t] == b[t]);
        assert(false);
    }
    lemma_annual_eq_upto(hist, cur, a, b, a.len() as int);
    assert(a =~= b);
}

/// Payout ratio as a percentage: `div * num_shares / net_value * 100`.
pub open spec fn spec_payout_ratio(div: int, num_shares: int, net_value: int) -> int {
    fix_div(fix_mul(div, num_shares), net_value) * 100
}

/// Fraction of the net cash flow paid out as dividends, in percent.
pub fn calculate_payout_ratio(div: i64, num_shares: i64, net_value: i64) -> (r: Result<
    i64,
    DivDataError,
>)
    requires
        net_value != 0,
    ensures
        r matches Ok(v) ==> v as int == spec_payout_ratio(div as int, num_shares as int, net_value as int),
        r is Ok <==> (fits(fix_mul(div as int, num_shares as int)) && fits(
            fix_div(fix_mul(div as int, num_shares as int), net_value as int),
        ) && fits(spec_payout_ratio(div as int, num_shares as int, net_value as int))),
        r matches Err(e) ==> e is AmountOverflow,
{
    let t1 = match mul_fix(div, num_shares) {
        Some(v) => v,
        None => {
            return Err(DivDataError::AmountOverflow);
        },
    };
    let t2 = match div_fix(t1, net_value) {
        Some(v) => v,
        None => {
            return Err(DivDataError::AmountOverflow);
        },
    };
    match mul_int(t2, 100) {
        Some(v) => Ok(v),
        None => Err(DivDataError::AmountOverflow),
    }
}

/// Dividend yield in percent: the most recent full year's total dividend
/// over the share price.
///
/// Fails with `NoDividendData` exactly when every payment falls in the
/// reference year, and with `AmountOverflow` when a total or the quotient
/// leaves the fixed-point range.
pub fn calculate_divy(div_history: &Vec<DivPayment>, share_price: i64, current_year: i32) -> (r:
    Result<i64, DivDataError>)
    requires
        share_price > 0,
        forall|i: int| 0 <= i < div_history@.len() ==> (#[trigger] div_history@[i]).amount >= 0,
    ensures
        r matches Err(e) ==> (e is NoDividendData <==> !(exists|y: int|
            spec_has_year(div_history@, y) && y != current_year as int)),
        r is Ok <==> (exists|ys: Seq<(i32, i64)>|
            {
                &&& #[trigger] spec_is_annual(div_history@, current_year as int, ys)
                &&& ys.len() > 0
                &&& fits(fix_div(ys.last().1 as int, share_price as int))
                &&& fits(fix_div(ys.last().1 as int, share_price as int) * 100)
            }),
        r matches Ok(v) ==> (forall|ys: Seq<(i32, i64)>|
            #[trigger] spec_is_annual(div_history@, current_year as int, ys) && ys.len() > 0
                ==> v as int == fix_div(ys.last().1 as int, share_price as int) * 100),
{
    let annual = match annual_dividends(div_history, current_year) {
        Ok(v) => v,
        Err(_) => {
            proof {
                let y = choose|y: int|
                    spec_has_year(div_history@, y) && y != current_year as int && !fits(
                        #[trigger] spec_year_sum(div_history@, y),
                    );
                lemma_year_sum_nonneg(div_history@, div_history@.len() as int, y);
                assert(exists|yy: int|
                    spec_has_year(div_history@, yy) && yy != current_year as int);
                assert forall|ys: Seq<(i32, i64)>|
                    #[trigger] spec_is_annual(div_history@, current_year as int, ys) implies false by {
                    let m = choose|m: int| 0 <= m < ys.len() && (#[trigger] ys[m]).0 as int == y;
                    assert(ys[m].1 as int == spec_year_sum(div_history@, y));
                }
            }
            return Err(DivDataError::AmountOverflow);
        },
    };
    if annual.len() == 0 {
        proof {
            if exists|y: int| spec_has_year(div_history@, y) && y != current_year as int {
                let y = choose|y: int|
                    #[trigger] spec_has_year(div_history@, y) && y != current_year as int;
                assert(exists|k: int| 0 <= k < annual@.len() && (#[trigger] annual@[k]).0 as int == y);
            }
        }
        return Err(DivDataError::NoDividendData);
    }
    let last = annual[annual.len() - 1];
    proof {
        assert(last == annual@.last());
    }
    proof {
        assert(spec_has_year(div_history@, annual@[0].0 as int) && annual@[0].0 as int
            != current_year as int);
        assert(exists|yy: int| spec_has_year(div_history@, yy) && yy != current_year as int);
    }
    let t = match div_fix(last.1, share_price) {
        Some(v) => v,
        None => {
            proof {
                assert forall|ys: Seq<(i32, i64)>|
                    #[trigger] spec_is_annual(div_history@, current_year as int, ys) implies ys
                    == annual@ by {
                    lemma_annual_unique(div_history@, current_year as int, ys, annual@);
                }
            }
            return Err(DivDataError::AmountOverflow);
        },
    };
    match mul_int(t, 100) {
        Some(v) => {
            proof {
                assert forall|ys: Seq<(i32, i64)>|
                    #[trigger] spec_is_annual(div_history@, current_year as int, ys) implies ys
                    == annual@ by {
                    lemma_annual_unique(div_history@, current_year as int, ys, annual@);
                }
            }
            Ok(v)
        },
        None => {
            proof {
                assert forall|ys: Seq<(i32, i64)>|
                    #[trigger] spec_is_annual(div_history@, current_year as int, ys) implies ys
                    == annual@ by {
                    lemma_annual_unique(div_history@, current_year as int, ys, annual@);
                }
            }
            Err(DivDataError::AmountOverflow)
        },
    }
}

/// How many years of history the figures look back at.
pub const RECENT_YEARS_WINDOW: i32 = 5;

/// Stable insertion of a payment into a date-ascending list: after every
/// payment on or before its date.
pub open spec fn spec_insert_by_date(s: Seq<DivPayment>, x: DivPayment) -> Seq<DivPayment>
    decreases s.len(),
{
    if s.len() == 0 {
        seq![x]
    } else if spec_date_le(s[0].date, x.date) {
        seq![s[0]] + spec_insert_by_date(s.drop_first(), x)
    } else {
        seq![x] + s
    }
}

/// Stable insertion sort of a payment history by pay date, ascending.
pub open spec fn spec_sort_by_date(s: Seq<DivPayment>) -> Seq<DivPayment>
    decreases s.len(),
{
    if s.len() == 0 {
        Seq::empty()
    } else {
        spec_insert_by_date(spec_sort_by_date(s.drop_last()), s.last())
    }
}

/// Whether the payments are in non-decreasing date order.
pub open spec fn spec_dates_sorted(s: Seq<DivPayment>) -> bool {
    forall|p: int, q: int|
        0 <= p <= q < s.len() ==> spec_date_le((#[trigger] s[p]).date, (#[trigger] s[q]).date)
}

/// Inserting at the stable position is one sequence insertion.
proof fn lemma_insert_by_date_at(s: Seq<DivPayment>, x: DivPayment, p: int)
    requires
        0 <= p <= s.len(),
        forall|i: int| 0 <= i < p ==> spec_date_le((#[trigger] s[i]).date, x.date),
        p < s.len() ==> !spec_date_le(s[p].date, x.date),
    ensures
        spec_insert_by_date(s, x) =~= s.insert(p, x),
    decreases s.len(),
{
    if s.len() == 0 {
        assert(spec_insert_by_date(s, x) =~= s.insert(0, x));
    } else if p == 0 {
        assert(spec_insert_by_date(s, x) =~= s.insert(0, x));
    } else {
        lemma_insert_by_date_at(s.drop_first(), x, p - 1);
        assert(seq![s[0]] + s.drop_first().insert(p - 1, x) =~= s.insert(p, x));
    }
}

/// What stable date insertion preserves: length, order and the multiset of
/// payments.
pub proof fn lemma_insert_by_date_props(s: Seq<DivPayment>, x: DivPayment)
    requires
        spec_dates_sorted(s),
    ensures
        spec_insert_by_date(s, x).len() == s.len() + 1,
        spec_dates_sorted(spec_insert_by_date(s, x)),
        spec_insert_by_date(s, x).to_multiset() == s.to_multiset().insert(x),
    decreases s.len(),
{
    broadcast use vstd::seq_lib::to_multiset_insert;

    let r = spec_insert_by_date(s, x);
    if s.len() == 0 {
        lemma_insert_by_date_at(s, x, 0);
        assert(r =~= s.insert(0, x));
    } else if spec_date_le(s[0].date, x.date) {
        let rest = s.drop_first();
        assert(spec_dates_sorted(rest)) by {
            assert(forall|i: int| 0 <= i < rest.len() ==> rest[i] == s[i + 1]);
        }
        lemma_insert_by_date_props(rest, x);
        let rr = spec_insert_by_date(rest, x);
        assert(r =~= seq![s[0]] + rr);
        assert(spec_dates_sorted(r)) by {
            assert(forall|i: int| 1 <= i < r.len() ==> r[i] == rr[i - 1]);
            assert forall|q: int|
                0 <= q < rr.len() implies spec_date_le(s[0].date, (#[trigger] rr[q]).date) by {
                // every element of the tail comes from `rest` or is `x`
                assert(rr.to_multiset() == rest.to_multiset().insert(x));
                assert(rr.to_multiset().contains(rr[q])) by {
                    rr.to_multiset_ensures();
                }
                if rr[q] != x {
                    assert(rest.to_multiset().contains(rr[q]));
                    assert(rest.contains(rr[q])) by {
                        rest.to_multiset_ensures();
                    }
                    let w = choose|w: int| 0 <= w < rest.len() && rest[w] == rr[q];
                    assert(rest[w] == s[w + 1]);
                }
            }
        }
        assert(r.to_multiset() == s.to_multiset().insert(x)) by {
            assert(r =~= s.take(1) + rr);
            assert(s.take(1).push(x) =~= seq![s[0], x]);
            lemma_multiset_concat(s.take(1), rr);
            lemma_multiset_concat(s.take(1), rest);
            assert(s.take(1) + rest =~= s);
            assert(r.to_multiset() =~= s.to_multiset().insert(x));
        }
    } else {
        lemma_insert_by_date_at(s, x, 0);
        assert(r =~= s.insert(0, x));
        assert(spec_dates_sorted(r)) by {
            assert(forall|i: int| 1 <= i < r.len() ==> r[i] == s[i - 1]);
            assert forall|q: int|
                0 <= q < s.len() implies spec_date_le(x.date, (#[trigger] s[q]).date) by {
                assert(spec_date_le(s[0].date, s[q].date));
                lemma_date_total(s[0].date, x.date);
                lemma_date_trans(x.date, s[0].date, s[q].date);
            }
        }
    }
}

/// Calendar order is total: of two dates, one is on or before the other.
pub proof fn lemma_date_total(a: Date, b: Date)
    ensures
        spec_date_le(a, b) || spec_date_le(b, a),
{
}

/// Calendar order is transitive.
pub proof fn lemma_date_trans(a: Date, b: Date, c: Date)
    requires
        spec_date_le(a, b),
        spec_date_le(b, c),
    ensures
        spec_date_le(a, c),
{
}

/// The multiset of a concatenation adds the parts' multisets.
proof fn lemma_multiset_concat(a: Seq<DivPayment>, b: Seq<DivPayment>)
    ensures
        (a + b).to_multiset() == a.to_multiset().add(b.to_multiset()),
    decreases b.len(),
{
    broadcast use vstd::seq_lib::group_to_multiset_ensures;

    if b.len() == 0 {
        assert(a + b =~= a);
        assert(b.to_multiset() =~= Multiset::empty());
        assert((a + b).to_multiset() =~= a.to_multiset().add(b.to_multiset()));
    } else {
        lemma_multiset_concat(a, b.drop_last());
        assert(a + b =~= (a + b.drop_last()).push(b.last()));
        assert(b =~= b.drop_last().push(b.last()));
        assert((a + b).to_multiset() =~= a.to_multiset().add(b.to_multiset()));
    }
}

/// What the stable date sort establishes: date order; and what it preserves:
/// the multiset of payments.
pub proof fn lemma_sort_by_date_props(s: Seq<DivPayment>)
    ensures
        spec_sort_by_date(s).len() == s.len(),
        spec_dates_sorted(spec_sort_by_date(s)),
        spec_sort_by_date(s).to_multiset() == s.to_multiset(),
    decreases s.len(),
{
    broadcast use vstd::seq_lib::group_to_multiset_ensures;

    if s.len() > 0 {
        lemma_sort_by_date_props(s.drop_last());
        lemma_insert_by_date_props(spec_sort_by_date(s.drop_last()), s.last());
        assert(s =~= s.drop_last().push(s.last()));
        assert(s.drop_last().push(s.last()).to_multiset() == s.drop_last().to_multiset().insert(
            s.last(),
        ));
    }
}

/// Finds the stable insertion position: after every payment on or before the
/// date.
#[verifier::loop_isolation(false)]
fn date_insert_pos(res: &Vec<DivPayment>, x: &DivPayment) -> (p: usize)
    ensures
        p <= res@.len(),
        forall|i: int| 0 <= i < p ==> spec_date_le((#[trigger] res@[i]).date, x.date),
        p < res@.len() ==> !spec_date_le(res@[p as int].date, x.date),
{
    let n = res.len();
    let mut p: usize = 0;
    while p < n
        invariant
            0 <= p <= n,
            forall|i: int| 0 <= i < p ==> spec_date_le((#[trigger] res@[i]).date, x.date),
        decreases n - p,
    {
        if !date_le(&res[p].date, &x.date) {
            return p;
        }
        p = p + 1;
    }
    p
}

/// Sorts a payment history by pay date, ascending; payments on the same day
/// keep their given order.
#[verifier::loop_isolation(false)]
pub fn sorted_div_history(hist: &Vec<DivPayment>) -> (r: Vec<DivPayment>)
    ensures
        r@ == spec_sort_by_date(hist@),
{
    let mut res: Vec<DivPayment> = Vec::new();
    let n = hist.len();
    let mut k: usize = 0;
    while k < n
        invariant
            0 <= k <= n,
            res@ == spec_sort_by_date(hist@.take(k as int)),
        decreases n - k,
    {
        let x = hist[k];
        let p = date_insert_pos(&res, &x);
        proof {
            lemma_insert_by_date_at(res@, x, p as int);
        }
        res.insert(p, x);
        k = k + 1;
        proof {
            assert(hist@.take(k as int).drop_last() =~= hist@.take(k as int - 1));
            assert(hist@.take(k as int).last() == hist@[k as int - 1]);
        }
    }
    proof {
        assert(hist@.take(n as int) =~= hist@);
    }
    res
}

/// The payments of the last few years (the window ends at the reference
/// year), in their given order.
pub open spec fn spec_recent_prefix(hist: Seq<DivPayment>, n: int, cur: int) -> Seq<DivPayment>
    decreases n,
{
    if n <= 0 {
        Seq::empty()
    } else {
        spec_recent_prefix(hist, n - 1, cur) + (if cur - hist[n - 1].date.year
            <= RECENT_YEARS_WINDOW as int {
            seq![hist[n - 1]]
        } else {
            Seq::empty()
        })
    }
}

/// Keeps the payments whose year lies within the look-back window of the
/// reference year.
#[verifier::loop_isolation(false)]
pub fn filter_recent_years(hist: &Vec<DivPayment>, current_year: i32) -> (r: Vec<DivPayment>)
    ensures
        r@ == spec_recent_prefix(hist@, hist@.len() as int, current_year as int),
{
    let n = hist.len();
    let mut res: Vec<DivPayment> = Vec::new();
    let mut i: usize = 0;
    while i < n
        invariant
            0 <= i <= n,
            res@ == spec_recent_prefix(hist@, i as int, current_year as int),
        decreases n - i,
    {
        let p = hist[i];
        if (current_year as i64) - (p.date.year as i64) <= RECENT_YEARS_WINDOW as i64 {
            res.push(p);
        }
        i = i + 1;
        proof {
            if current_year as int - hist@[i - 1].date.year <= RECENT_YEARS_WINDOW as int {
                assert(spec_recent_prefix(hist@, i as int, current_year as int)
                    =~= spec_recent_prefix(hist@, i as int - 1, current_year as int).push(
                    hist@[i - 1],
                ));
            } else {
                assert(spec_recent_prefix(hist@, i as int, current_year as int)
                    =~= spec_recent_prefix(hist@, i as int - 1, current_year as int));
            }
        }
    }
    res
}

/// The most recent payment of an already date-sorted history.
pub fn latest_payment(hist: &Vec<DivPayment>) -> (r: Option<DivPayment>)
    ensures
        r matches Some(p) ==> hist@.len() > 0 && p == hist@.last(),
        r is Some <==> hist@.len() > 0,
{
    let n = hist.len();
    if n == 0 {
        None
    } else {
        Some(hist[n - 1])
    }
}

/// One hundred percent, at fixed-point scale.
pub const HUNDRED_PERCENT: i64 = 1_000_000_000;

/// Whether `gs` is the gap-filled annual series: consecutive years from the
/// oldest paying year up to the year before the reference year, each entry
/// holding that year's total (zero for a year without payments).
pub open spec fn spec_is_filled(hist: Seq<DivPayment>, cur: int, gs: Seq<(i32, i64)>) -> bool {
    &&& gs.len() >= 1
    &&& forall|j: int| 0 <= j < gs.len() ==> (#[trigger] gs[j]).0 as int == gs[0].0 as int + j
    &&& gs.last().0 as int == cur - 1
    &&& spec_has_year(hist, gs[0].0 as int)
    &&& forall|y: int| y < gs[0].0 as int ==> !(#[trigger] spec_has_year(hist, y))
    &&& forall|j: int|
        0 <= j < gs.len() ==> (#[trigger] gs[j]).1 >= 0 && gs[j].1 as int == spec_year_sum(
            hist,
            gs[j].0 as int,
        )
}

/// Law: the gap-filled annual series is unique.
pub proof fn lemma_filled_unique(
    hist: Seq<DivPayment>,
    cur: int,
    a: Seq<(i32, i64)>,
    b: Seq<(i32, i64)>,
)
    requires
        spec_is_filled(hist, cur, a),
        spec_is_filled(hist, cur, b),
    ensures
        a == b,
{
    assert(a[0].0 == b[0].0) by {
        if a[0].0 < b[0].0 {
            assert(!spec_has_year(hist, a[0].0 as int));
        }
        if b[0].0 < a[0].0 {
            assert(!spec_has_year(hist, b[0].0 as int));
        }
    }
    assert(a.len() == b.len()) by {
        assert(a[a.len() - 1].0 as int == a[0].0 as int + a.len() - 1);
        assert(b[b.len() - 1].0 as int == b[0].0 as int + b.len() - 1);
    }
    assert forall|j: int| 0 <= j < a.len() implies a[j] == b[j] by {
        assert(a[j].0 as int == a[0].0 as int + j);
        assert(b[j].0 as int == b[0].0 as int + j);
        assert(a[j].1 as int == spec_year_sum(hist, a[j].0 as int));
        assert(b[j].1 as int == spec_year_sum(hist, b[j].0 as int));
    }
    assert(a =~= b);
}

/// One growth term of the average: the year-over-year change of the annual
/// total, in percent at fixed-point scale.  A year following a zero year
/// counts as one hundred percent growth when it paid anything, zero growth
/// otherwise.  `None` when an intermediate value leaves the fixed-point
/// range.
pub open spec fn spec_dgr_term(next: int, this: int) -> Option<int> {
    if this > 0 {
        let ratio = fix_div(next, this);
        if fits(ratio) && fits(ratio - SCALE) && fits((ratio - SCALE) * 100) {
            Some((ratio - SCALE) * 100)
        } else {
            None
        }
    } else if next > 0 {
        Some(HUNDRED_PERCENT as int)
    } else {
        Some(0)
    }
}

/// Sum of the growth terms of the pairs `(j+1, j)` for `j` from the top of
/// the series down to `k`.
pub open spec fn spec_dgr_acc(gs: Seq<(i32, i64)>, k: int) -> Option<int>
    decreases gs.len() - k,
{
    if k >= gs.len() - 1 {
        Some(0)
    } else {
        match spec_dgr_acc(gs, k + 1) {
            None => None,
            Some(a) => match spec_dgr_term(gs[k + 1].1 as int, gs[k].1 as int) {
                None => None,
                Some(t) => if fits(a + t) {
                    Some(a + t)
                } else {
                    None
                },
            },
        }
    }
}

/// Once the growth accumulation fails, it fails at every lower index.
proof fn lemma_dgr_acc_none(gs: Seq<(i32, i64)>, m: int, k: int)
    requires
        k <= m,
        spec_dgr_acc(gs, m) is None,
    ensures
        spec_dgr_acc(gs, k) is None,
    decreases m - k,
{
    if k < m {
        lemma_dgr_acc_none(gs, m, k + 1);
    }
}

/// Average annual dividend growth rate, in percent at fixed-point scale.
///
/// The annual totals are gap-filled with zero years from the oldest paying
/// year to the year before the reference year; each year-over-year change
/// contributes one term, and the result is their rounded mean (zero when
/// only one year remains).  Payment dates must not lie beyond the reference
/// year.  Fails with `NoDividendData` exactly when every payment falls in
/// the reference year, and with `AmountOverflow` when a total, a term or
/// the mean leaves the fixed-point range.
#[verifier::loop_isolation(false)]
pub fn calculate_dgr(div_history: &Vec<DivPayment>, current_year: i32) -> (r: Result<
    i64,
    DivDataError,
>)
    requires
        forall|i: int| 0 <= i < div_history@.len() ==> (#[trigger] div_history@[i]).amount >= 0,
        forall|i: int|
            0 <= i < div_history@.len() ==> (#[trigger] div_history@[i]).date.year <= current_year,
    ensures
        r matches Err(e) ==> (e is NoDividendData <==> !(exists|y: int|
            spec_has_year(div_history@, y) && y != current_year as int)),
        r is Ok <==> (exists|gs: Seq<(i32, i64)>|
            {
                &&& #[trigger] spec_is_filled(div_history@, current_year as int, gs)
                &&& spec_dgr_acc(gs, 0) is Some
                &&& (gs.len() > 1 ==> fits(
                    round_div(spec_dgr_acc(gs, 0).unwrap(), gs.len() as int - 1),
                ))
            }),
        r matches Ok(v) ==> (forall|gs: Seq<(i32, i64)>|
            #[trigger] spec_is_filled(div_history@, current_year as int, gs) ==> v as int == (
            if gs.len() == 1 {
                0int
            } else {
                round_div(spec_dgr_acc(gs, 0).unwrap(), gs.len() as int - 1)
            })),
{
    let ghost hist = div_history@;
    let ghost cur = current_year as int;
    let annual = match annual_dividends(div_history, current_year) {
        Ok(v) => v,
        Err(_) => {
            proof {
                let y = choose|y: int|
                    spec_has_year(hist, y) && y != cur && !fits(#[trigger] spec_year_sum(hist, y));
                lemma_year_sum_nonneg(hist, hist.len() as int, y);
                assert(exists|yy: int| spec_has_year(hist, yy) && yy != cur);
                assert forall|gs: Seq<(i32, i64)>|
                    #[trigger] spec_is_filled(hist, cur, gs) implies false by {
                    assert(y >= gs[0].0 as int);
                    let w = choose|w: int| 0 <= w < hist.len() && (#[trigger] hist[w].date).year == y;
                    assert(y <= cur - 1);
                    let j = y - gs[0].0 as int;
                    assert(gs[j].0 as int == y);
                    assert(gs[j].1 as int == spec_year_sum(hist, y));
                }
            }
            return Err(DivDataError::AmountOverflow);
        },
    };
    if annual.len() == 0 {
        proof {
            if exists|y: int| spec_has_year(hist, y) && y != cur {
                let y = choose|y: int| #[trigger] spec_has_year(hist, y) && y != cur;
                assert(exists|k: int| 0 <= k < annual@.len() && (#[trigger] annual@[k]).0 as int == y);
            }
            assert forall|gs: Seq<(i32, i64)>| #[trigger] spec_is_filled(hist, cur, gs) implies false by {
                assert(spec_has_year(hist, gs[0].0 as int));
                assert(gs[0].0 as int != cur) by {
                    assert(gs[gs.len() - 1].0 as int == cur - 1);
                    assert(gs[gs.len() - 1].0 as int == gs[0].0 as int + gs.len() - 1);
                }
                assert(exists|k: int|
                    0 <= k < annual@.len() && (#[trigger] annual@[k]).0 as int == gs[0].0 as int);
            }
        }
        return Err(DivDataError::NoDividendData);
    }
    proof {
        assert(spec_has_year(hist, annual@[0].0 as int) && annual@[0].0 as int != cur);
        assert(exists|yy: int| spec_has_year(hist, yy) && yy != cur);
    }
    let oldest = annual[0].0;
    proof {
        let w = choose|w: int|
            0 <= w < hist.len() && (#[trigger] hist[w].date).year == annual@[0].0 as int;
        assert(oldest < current_year);
    }
    let mut gs: Vec<(i32, i64)> = Vec::new();
    let mut ai: usize = 0;
    let mut y: i32 = oldest;
    let alen = annual.len();
    while y < current_year
        invariant
            oldest <= y <= current_year,
            0 <= ai <= alen,
            forall|m: int| 0 <= m < ai ==> (#[trigger] annual@[m]).0 < y,
            forall|m: int| ai <= m < alen ==> (#[trigger] annual@[m]).0 >= y,
            gs@.len() == y - oldest,
            forall|j: int|
                0 <= j < gs@.len() ==> (#[trigger] gs@[j]).0 as int == oldest as int + j
                    && gs@[j].1 >= 0 && gs@[j].1 as int == spec_year_sum(hist, gs@[j].0 as int),
        decreases current_year - y,
    {
        if ai < alen && annual[ai].0 == y {
            gs.push((y, annual[ai].1));
            ai = ai + 1;
        } else {
            proof {
                if spec_has_year(hist, y as int) {
                    assert(exists|k: int|
                        0 <= k < annual@.len() && (#[trigger] annual@[k]).0 as int == y as int);
                    let k = choose|k: int|
                        0 <= k < annual@.len() && (#[trigger] annual@[k]).0 as int == y as int;
                    if k < ai {
                        assert(annual@[k].0 < y);
                    } else {
                        assert(annual@[k].0 >= y);
                        if k > ai {
                            assert(annual@[ai as int].0 < annual@[k].0);
                        }
                    }
                    assert(false);
                }
                lemma_year_sum_no_year(hist, hist.len() as int, y as int);
            }
            gs.push((y, 0));
        }
        y = y + 1;
    }
    proof {
        assert(spec_is_filled(hist, cur, gs@)) by {
            assert(gs@.len() >= 1);
            assert(gs@[0].0 == oldest);
            assert(gs@[gs@.len() - 1].0 as int == cur - 1);
            assert forall|yy: int| yy < gs@[0].0 as int implies !(#[trigger] spec_has_year(
                hist,
                yy,
            )) by {
                if spec_has_year(hist, yy) {
                    let w = choose|w: int|
                        0 <= w < hist.len() && (#[trigger] hist[w].date).year == yy;
                    assert(yy != cur);
                    assert(exists|k: int|
                        0 <= k < annual@.len() && (#[trigger] annual@[k]).0 as int == yy);
                    let k = choose|k: int|
                        0 <= k < annual@.len() && (#[trigger] annual@[k]).0 as int == yy;
                    if k > 0 {
                        assert(annual@[0].0 < annual@[k].0);
                    }
                    assert(false);
                }
            }
        }
    }
    let num_years = gs.len();
    let mut avg: i64 = 0;
    let mut idx: usize = num_years - 1;
    while idx > 0
        invariant
            0 <= idx <= num_years - 1,
            spec_dgr_acc(gs@, idx as int) == Some(avg as int),
        decreases idx,
    {
        let next = gs[idx].1;
        let this = gs[idx - 1].1;
        let maybe_term: Option<i64> = if this > 0 {
            match div_fix(next, this) {
                Some(ratio) => match sub_fix(ratio, SCALE) {
                    Some(d) => mul_int(d, 100),
                    None => None,
                },
                None => None,
            }
        } else if next > 0 {
            Some(HUNDRED_PERCENT)
        } else {
            Some(0)
        };
        let t = match maybe_term {
            Some(t) => t,
            None => {
                proof {
                    assert(spec_dgr_acc(gs@, idx - 1) is None);
                    lemma_dgr_acc_none(gs@, idx - 1, 0);
                    assert forall|gs2: Seq<(i32, i64)>|
                        #[trigger] spec_is_filled(hist, cur, gs2) implies !(spec_dgr_acc(gs2, 0)
                        is Some) by {
                        lemma_filled_unique(hist, cur, gs2, gs@);
                    }
                }
                return Err(DivDataError::AmountOverflow);
            },
        };
        let new_avg = match add_fix(avg, t) {
            Some(v) => v,
            None => {
                proof {
                    assert(spec_dgr_acc(gs@, idx - 1) is None);
                    lemma_dgr_acc_none(gs@, idx - 1, 0);
                    assert forall|gs2: Seq<(i32, i64)>|
                        #[trigger] spec_is_filled(hist, cur, gs2) implies !(spec_dgr_acc(gs2, 0)
                        is Some) by {
                        lemma_filled_unique(hist, cur, gs2, gs@);
                    }
                }
                return Err(DivDataError::AmountOverflow);
            },
        };
        avg = new_avg;
        idx = idx - 1;
    }
    if num_years == 1 {
        proof {
            assert forall|gs2: Seq<(i32, i64)>|
                #[trigger] spec_is_filled(hist, cur, gs2) implies gs2 == gs@ by {
                lemma_filled_unique(hist, cur, gs2, gs@);
            }
        }
        return Ok(0);
    }
    let count = num_years - 1;
    proof {
        assert(gs@.len() == cur - oldest as int);
        assert(count as int <= 0x1_0000_0000int);
    }
    match div_int(avg, count as i64) {
        Some(v) => {
            proof {
                assert forall|gs2: Seq<(i32, i64)>|
                    #[trigger] spec_is_filled(hist, cur, gs2) implies gs2 == gs@ by {
                    lemma_filled_unique(hist, cur, gs2, gs@);
                }
            }
            Ok(v)
        },
        None => {
            proof {
                assert forall|gs2: Seq<(i32, i64)>|
                    #[trigger] spec_is_filled(hist, cur, gs2) implies gs2 == gs@ by {
                    lemma_filled_unique(hist, cur, gs2, gs@);
                }
            }
            Err(DivDataError::AmountOverflow)
        },
    }
}

/// Total dividend paid in the given fiscal year.
///
/// Fails with `AmountOverflow` exactly when the year's total leaves the
/// fixed-point range.
#[verifier::loop_isolation(false)]
pub fn calculate_annualized_div(div_history: &Vec<DivPayment>, fiscal_year: i32) -> (r: Result<
    i64,
    DivDataError,
>)
    requires
        forall|i: int| 0 <= i < div_history@.len() ==> (#[trigger] div_history@[i]).amount >= 0,
    ensures
        r matches Ok(v) ==> v as int == spec_year_sum(div_history@, fiscal_year as int),
        r is Ok <==> fits(spec_year_sum(div_history@, fiscal_year as int)),
        r matches Err(e) ==> e is AmountOverflow,
{
    let ghost hist = div_history@;
    let ghost fy = fiscal_year as int;
    let n = div_history.len();
    let mut acc: i64 = 0;
    let mut i: usize = 0;
    while i < n
        invariant
            0 <= i <= n,
            acc >= 0,
            acc as int == spec_year_sum_prefix(hist, i as int, fy),
        decreases n - i,
    {
        let p = div_history[i];
        if p.date.year == fiscal_year {
            acc = match acc.checked_add(p.amount) {
                Some(v) => v,
                None => {
                    proof {
                        lemma_year_sum_monotone(hist, i + 1, hist.len() as int, fy);
                    }
                    return Err(DivDataError::AmountOverflow);
                },
            };
        }
        i = i + 1;
    }
    Ok(acc)
}

/// Streak length: how many steps down from entry `k` the annual totals
/// strictly shrink going into the past (equivalently, grow year over year).
pub open spec fn spec_consec_from(ys: Seq<(i32, i64)>, k: int) -> int
    decreases k,
{
    if k <= 0 {
        0
    } else if ys[k - 1].1 < ys[k].1 {
        1 + spec_consec_from(ys, k - 1)
    } else {
        0
    }
}

/// A strictly year-sorted series spans at least its length in years.
proof fn lemma_sorted_span(ys: Seq<(i32, i64)>)
    requires
        ys.len() >= 1,
        forall|p: int, q: int| 0 <= p < q < ys.len() ==> (#[trigger] ys[p]).0 < (#[trigger] ys[q]).0,
    ensures
        ys.last().0 as int - ys[0].0 as int >= ys.len() - 1,
    decreases ys.len(),
{
    if ys.len() >= 2 {
        let butlast = ys.drop_last();
        assert(forall|j: int| 0 <= j < butlast.len() ==> butlast[j] == ys[j]);
        lemma_sorted_span(butlast);
    }
}

/// Number of consecutive past years of dividend growth, newest first, the
/// reference year excluded.
///
/// Fails with `NoDividendData` exactly when every payment falls in the
/// reference year, and with `AmountOverflow` when a year's total leaves the
/// fixed-point range.
#[verifier::loop_isolation(false)]
pub fn calculate_consecutive_years_of_growth(div_history: &Vec<DivPayment>, current_year: i32) -> (r:
    Result<u32, DivDataError>)
    requires
        forall|i: int| 0 <= i < div_history@.len() ==> (#[trigger] div_history@[i]).amount >= 0,
    ensures
        r matches Err(e) ==> (e is NoDividendData <==> !(exists|y: int|
            spec_has_year(div_history@, y) && y != current_year as int)),
        r is Ok <==> (exists|ys: Seq<(i32, i64)>|
            #[trigger] spec_is_annual(div_history@, current_year as int, ys) && ys.len() > 0),
        r matches Ok(c) ==> (forall|ys: Seq<(i32, i64)>|
            #[trigger] spec_is_annual(div_history@, current_year as int, ys) && ys.len() > 0
                ==> c as int == spec_consec_from(ys, ys.len() as int - 1)),
{
    let ghost hist = div_history@;
    let ghost cur = current_year as int;
    let annual = match annual_dividends(div_history, current_year) {
        Ok(v) => v,
        Err(_) => {
            proof {
                let y = choose|y: int|
                    spec_has_year(hist, y) && y != cur && !fits(#[trigger] spec_year_sum(hist, y));
                lemma_year_sum_nonneg(hist, hist.len() as int, y);
                assert(exists|yy: int| spec_has_year(hist, yy) && yy != cur);
                assert forall|ys: Seq<(i32, i64)>|
                    #[trigger] spec_is_annual(hist, cur, ys) implies false by {
                    let m = choose|m: int| 0 <= m < ys.len() && (#[trigger] ys[m]).0 as int == y;
                    assert(ys[m].1 as int == spec_year_sum(hist, y));
                }
            }
            return Err(DivDataError::AmountOverflow);
        },
    };
    let alen = annual.len();
    if alen == 0 {
        proof {
            if exists|y: int| spec_has_year(hist, y) && y != cur {
                let y = choose|y: int| #[trigger] spec_has_year(hist, y) && y != cur;
                assert(exists|k: int| 0 <= k < annual@.len() && (#[trigger] annual@[k]).0 as int == y);
            }
            assert forall|ys: Seq<(i32, i64)>|
                #[trigger] spec_is_annual(hist, cur, ys) implies ys.len() == 0 by {
                lemma_annual_unique(hist, cur, ys, annual@);
            }
        }
        return Err(DivDataError::NoDividendData);
    }
    proof {
        assert(spec_has_year(hist, annual@[0].0 as int) && annual@[0].0 as int != cur);
        assert(exists|yy: int| spec_has_year(hist, yy) && yy != cur);
        lemma_sorted_span(annual@);
        assert(alen - 1 <= 0xffff_ffffint);
    }
    let mut count: u32 = 0;
    let mut k: usize = alen - 1;
    let mut broken = false;
    while k > 0 && !broken
        invariant
            0 <= k <= alen - 1,
            !broken ==> count as int == alen - 1 - k,
            !broken ==> spec_consec_from(annual@, alen - 1) == count + spec_consec_from(
                annual@,
                k as int,
            ),
            broken ==> spec_consec_from(annual@, alen - 1) == count,
        decreases k + (if broken {
            0int
        } else {
            1int
        }),
    {
        if annual[k - 1].1 < annual[k].1 {
            proof {
                lemma_sorted_span(annual@);
            }
            count = count + 1;
            k = k - 1;
        } else {
            broken = true;
        }
    }
    proof {
        assert(spec_consec_from(annual@, alen - 1) == count);
        assert forall|ys: Seq<(i32, i64)>|
            #[trigger] spec_is_annual(hist, cur, ys) && ys.len() > 0 implies ys == annual@ by {
            lemma_annual_unique(hist, cur, ys, annual@);
        }
    }
    Ok(count)
}

/// A year that occurs in none of the first `n` payments has a zero total.
pub proof fn lemma_year_sum_no_year(hist: Seq<DivPayment>, n: int, y: int)
    requires
        0 <= n <= hist.len(),
        !spec_has_year_prefix(hist, n, y),
    ensures
        spec_year_sum_prefix(hist, n, y) == 0,
    decreases n,
{
    if n > 0 {
        assert(!spec_has_year_prefix(hist, n - 1, y)) by {
            if spec_has_year_prefix(hist, n - 1, y) {
                let w = choose|w: int| 0 <= w < n - 1 && (#[trigger] hist[w].date).year == y;
                assert(spec_has_year_prefix(hist, n, y));
            }
        }
        lemma_year_sum_no_year(hist, n - 1, y);
        assert(hist[n - 1].date.year != y) by {
            if hist[n - 1].date.year == y {
                assert(spec_has_year_prefix(hist, n, y));
            }
        }
    }
}

} // verus!
