//! Row lookup and reporting over a company table.
//!
//! `lookup_forecast_params` reads the price, dividend yield and five-year
//! dividend growth of one ticker out of the table, converting the two
//! percentages to fractions.  `summary_table` narrows a table to the rows of
//! one company (or keeps every row), selects the reporting columns and
//! appends a computed payout-rate column; the result is handed to the caller
//! for display.

use vstd::prelude::*;

use crate::fixed::fits;
use crate::fixed::fix_div;
use crate::fixed::mul_int;
use crate::fixed::round_div;
use crate::fixed::div_fix;
use crate::fixed::div_int;
use crate::select::float_col;
use crate::select::text_col;
use crate::select::find_col;
use crate::select::select_rows;
use crate::select::lemma_find_col_nonneg;
use crate::select::spec_find_col;
use crate::select::spec_first_from;
use crate::select::spec_float_col;
use crate::select::spec_has_float_col;
use crate::select::spec_has_text_col;
use crate::select::spec_is_selection;
use crate::select::spec_col_selected;
use crate::select::spec_text_col;
use crate::screen::spec_kept;
use crate::screen::lemma_kept_props;
use crate::table::AnalysisError;
use crate::table::ColData;
use crate::table::Column;
use crate::table::Table;
use crate::table::spec_col_len;

verus! {

/// Whether the text entry holds exactly the wanted text.
pub open spec fn spec_text_is(o: Option<String>, s: Seq<char>) -> bool {
    o matches Some(x) && x@ == s
}

/// The row predicate "this row's symbol is `s`".
pub open spec fn spec_symbol_pred(sym: Seq<Option<String>>, s: Seq<char>) -> spec_fn(int) -> bool {
    |i: int| spec_text_is(sym[i], s)
}

/// The row predicate that keeps every row.
pub open spec fn spec_all_rows_pred() -> spec_fn(int) -> bool {
    |i: int| true
}

/// The first row whose symbol is `s`.
pub open spec fn spec_symbol_row(t: Table, s: Seq<char>) -> Option<int> {
    spec_first_from(
        t.spec_row_count() as int,
        0,
        spec_symbol_pred(spec_text_col(t, "Symbol"@), s),
    )
}

/// Reads `(share price, dividend yield, five-year dividend growth)` of the
/// first row carrying the given ticker symbol, the two percentage columns
/// divided by one hundred.
///
/// Fails with `MissingColumn` when the `"Symbol"` text column or one of the
/// numeric `"Price"`, `"Div Yield"`, `"DGR 5Y"` columns is absent, with
/// `EmptySelection` when no row carries the symbol, and with `MissingValue`
/// when the row's entry in one of the numeric columns is empty.
#[verifier::loop_isolation(false)]
pub fn lookup_forecast_params(t: &Table, symbol: &str) -> (r: Result<(i64, i64, i64), AnalysisError>)
    requires
        t.wf(),
    ensures
        r is Ok <==> {
            &&& spec_has_text_col(*t, "Symbol"@)
            &&& spec_symbol_row(*t, symbol@) is Some
            &&& spec_has_float_col(*t, "Price"@)
            &&& spec_has_float_col(*t, "Div Yield"@)
            &&& spec_has_float_col(*t, "DGR 5Y"@)
            &&& {
                let i = spec_symbol_row(*t, symbol@).unwrap();
                &&& spec_float_col(*t, "Price"@)[i] is Some
                &&& spec_float_col(*t, "Div Yield"@)[i] is Some
                &&& spec_float_col(*t, "DGR 5Y"@)[i] is Some
                &&& fits(round_div(spec_float_col(*t, "Div Yield"@)[i].unwrap() as int, 100))
                &&& fits(round_div(spec_float_col(*t, "DGR 5Y"@)[i].unwrap() as int, 100))
            }
        },
        r matches Ok(out) ==> {
            &&& spec_symbol_row(*t, symbol@) matches Some(i)
            &&& spec_float_col(*t, "Price"@)[i] matches Some(p) && out.0 == p
            &&& spec_float_col(*t, "Div Yield"@)[i] matches Some(dy) && out.1 as int == round_div(
                dy as int,
                100,
            )
            &&& spec_float_col(*t, "DGR 5Y"@)[i] matches Some(dg) && out.2 as int == round_div(
                dg as int,
                100,
            )
        },
        r matches Err(e) ==> (if !spec_has_text_col(*t, "Symbol"@) {
            e matches AnalysisError::MissingColumn(n) && n@ == "Symbol"@
        } else if spec_symbol_row(*t, symbol@) is None {
            e is EmptySelection
        } else if !spec_has_float_col(*t, "Price"@) {
            e matches AnalysisError::MissingColumn(n) && n@ == "Price"@
        } else if !spec_has_float_col(*t, "Div Yield"@) {
            e matches AnalysisError::MissingColumn(n) && n@ == "Div Yield"@
        } else if !spec_has_float_col(*t, "DGR 5Y"@) {
            e matches AnalysisError::MissingColumn(n) && n@ == "DGR 5Y"@
        } else {
            let i = spec_symbol_row(*t, symbol@).unwrap();
            if spec_float_col(*t, "Price"@)[i] is None {
                e matches AnalysisError::MissingValue(n) && n@ == "Price"@
            } else if spec_float_col(*t, "Div Yield"@)[i] is None {
                e matches AnalysisError::MissingValue(n) && n@ == "Div Yield"@
            } else if spec_float_col(*t, "DGR 5Y"@)[i] is None {
                e matches AnalysisError::MissingValue(n) && n@ == "DGR 5Y"@
            } else {
                e is AmountOverflow
            }
        }),
{
    let sym = match text_col(t, "Symbol") {
        Ok(v) => v,
        Err(e) => {
            return Err(e);
        },
    };
    let nrows = sym.len();
    proof {
        lemma_find_col_nonneg(t.cols@, "Symbol"@);
        assert(nrows == t.spec_row_count());
    }
    let wanted: String = symbol.to_owned();
    let row: usize = match find_symbol_row(sym, &wanted) {
        Some(i) => i,
        None => {
            return Err(AnalysisError::EmptySelection);
        },
    };
    let price_col = match float_col(t, "Price") {
        Ok(v) => v,
        Err(e) => {
            return Err(e);
        },
    };
    let dy_col = match float_col(t, "Div Yield") {
        Ok(v) => v,
        Err(e) => {
            return Err(e);
        },
    };
    let dg_col = match float_col(t, "DGR 5Y") {
        Ok(v) => v,
        Err(e) => {
            return Err(e);
        },
    };
    proof {
        lemma_find_col_nonneg(t.cols@, "Price"@);
        lemma_find_col_nonneg(t.cols@, "Div Yield"@);
        lemma_find_col_nonneg(t.cols@, "DGR 5Y"@);
    }
    let price = match price_col[row] {
        Some(v) => v,
        None => {
            return Err(AnalysisError::MissingValue("Price".to_owned()));
        },
    };
    let dy = match dy_col[row] {
        Some(v) => v,
        None => {
            return Err(AnalysisError::MissingValue("Div Yield".to_owned()));
        },
    };
    let dg = match dg_col[row] {
        Some(v) => v,
        None => {
            return Err(AnalysisError::MissingValue("DGR 5Y".to_owned()));
        },
    };
    let dy_frac = match div_int(dy, 100) {
        Some(v) => v,
        None => {
            return Err(AnalysisError::AmountOverflow);
        },
    };
    let dg_frac = match div_int(dg, 100) {
        Some(v) => v,
        None => {
            return Err(AnalysisError::AmountOverflow);
        },
    };
    Ok((price, dy_frac, dg_frac))
}

/// Finds the first entry holding exactly the wanted text.
#[verifier::loop_isolation(false)]
fn find_symbol_row(sym: &Vec<Option<String>>, wanted: &String) -> (r: Option<usize>)
    ensures
        r matches Some(i) ==> i < sym@.len() && spec_first_from(
            sym@.len() as int,
            0,
            spec_symbol_pred(sym@, wanted@),
        ) == Some(i as int),
        r is None ==> spec_first_from(sym@.len() as int, 0, spec_symbol_pred(sym@, wanted@))
            is None,
{
    let ghost pred = spec_symbol_pred(sym@, wanted@);
    let n = sym.len();
    let mut i: usize = 0;
    while i < n
        invariant
            0 <= i <= n,
            spec_first_from(n as int, 0, pred) == spec_first_from(n as int, i as int, pred),
        decreases n - i,
    {
        let hit = match &sym[i] {
            Some(x) => *x == *wanted,
            None => false,
        };
        if hit {
            return Some(i);
        }
        i = i + 1;
    }
    None
}

/// What a forecast is asked to run on: either a caller-supplied hypothetical
/// company or a ticker to resolve from the table.
#[derive(Debug, Clone)]
pub enum Target {
    /// A hypothetical company: name, dividend yield and five-year dividend
    /// growth in percent, and share price.
    Manual {
        /// Display name.
        name: String,
        /// Dividend yield, percent.
        div_yield: i64,
        /// Five-year dividend growth, percent.
        div_growth_5y: i64,
        /// Share price.
        share_price: i64,
    },
    /// A ticker symbol to look up in the table.
    Symbol {
        /// The ticker.
        ticker: String,
    },
}

/// Resolves a forecast target to `(share price, dividend yield fraction,
/// growth fraction)`: a manual target's percentages are divided by one
/// hundred, a symbol is looked up in the table.
pub fn resolve_target(target: &Target, table: &Table) -> (r: Result<(i64, i64, i64), AnalysisError>)
    requires
        table.wf(),
    ensures
        target matches Target::Manual { name, div_yield, div_growth_5y, share_price } ==> (r
            matches Ok(out) && out.0 == share_price && out.1 as int == round_div(
            div_yield as int,
            100,
        ) && out.2 as int == round_div(div_growth_5y as int, 100)),
        target matches Target::Symbol { ticker } ==> {
            &&& (r matches Ok(out) ==> {
                &&& spec_symbol_row(*table, ticker@) matches Some(i)
                &&& spec_float_col(*table, "Price"@)[i] matches Some(p) && out.0 == p
                &&& spec_float_col(*table, "Div Yield"@)[i] matches Some(dy) && out.1 as int
                    == round_div(dy as int, 100)
                &&& spec_float_col(*table, "DGR 5Y"@)[i] matches Some(dg) && out.2 as int
                    == round_div(dg as int, 100)
            })
        },
{
    match target {
        Target::Manual { name: _, div_yield, div_growth_5y, share_price } => {
            proof {
                lemma_div100_fits(*div_yield as int);
                lemma_div100_fits(*div_growth_5y as int);
            }
            let dy = match div_int(*div_yield, 100) {
                Some(v) => v,
                None => {
                    return Err(AnalysisError::AmountOverflow);
                },
            };
            let dg = match div_int(*div_growth_5y, 100) {
                Some(v) => v,
                None => {
                    return Err(AnalysisError::AmountOverflow);
                },
            };
            Ok((*share_price, dy, dg))
        },
        Target::Symbol { ticker } => lookup_forecast_params(table, ticker.as_str()),
    }
}

/// Dividing an amount by one hundred never leaves the fixed-point range.
proof fn lemma_div100_fits(v: int)
    requires
        -0x8000_0000_0000_0000 <= v <= 0x7fff_ffff_ffff_ffff,
    ensures
        fits(round_div(v, 100)),
{
    let m = (if v < 0 {
        -v
    } else {
        v
    });
    assert((m + 50) / 100 <= 0x7fff_ffff_ffff_ffff) by (nonlinear_arith)
        requires
            0 <= m <= 0x8000_0000_0000_0000,
    ;
}

/// The payout-rate entry computed for one row: the annualized dividend over
/// the cash flow per share, in percent; missing when either value is absent,
/// the cash flow is zero, or the rate leaves the fixed-point range.
pub open spec fn spec_rate_entry(ann: Option<i64>, cf: Option<i64>) -> Option<i64> {
    if ann matches Some(a) && cf matches Some(f) && f != 0 && fits(fix_div(a as int, f as int))
        && fits(fix_div(a as int, f as int) * 100) {
        Some((fix_div(ann.unwrap() as int, cf.unwrap() as int) * 100) as i64)
    } else {
        None
    }
}

/// Builds the company report: the rows of the requested company (every row
/// when none is named), the columns `"Symbol"`, `"Company"`,
/// `"Current Div"`, `"Div Yield"`, `"Price"`, and one appended
/// `"Div Payout Rate[%]"` column computed from `"Annualized"` over
/// `"CF/Share"`.
///
/// Fails with `MissingColumn` when a needed column is absent and with
/// `EmptySelection` when no row survives the company filter.
#[verifier::loop_isolation(false)]
pub fn summary_table(t: &Table, company: Option<&str>) -> (r: Result<Table, AnalysisError>)
    requires
        t.wf(),
    ensures
        r is Ok <==> {
            let pred = (match company {
                Some(c) => spec_symbol_pred(spec_text_col(*t, "Symbol"@), c@),
                None => spec_all_rows_pred(),
            });
            &&& (company is Some ==> spec_has_text_col(*t, "Symbol"@))
            &&& spec_kept(t.spec_row_count() as int, pred).len() > 0
            &&& spec_find_col(t.cols@, "Symbol"@) is Some
            &&& spec_find_col(t.cols@, "Company"@) is Some
            &&& spec_find_col(t.cols@, "Current Div"@) is Some
            &&& spec_find_col(t.cols@, "Div Yield"@) is Some
            &&& spec_find_col(t.cols@, "Price"@) is Some
            &&& spec_has_float_col(*t, "Annualized"@)
            &&& spec_has_float_col(*t, "CF/Share"@)
        },
        r matches Err(e) ==> {
            let pred = (match company {
                Some(c) => spec_symbol_pred(spec_text_col(*t, "Symbol"@), c@),
                None => spec_all_rows_pred(),
            });
            if company is Some && !spec_has_text_col(*t, "Symbol"@) {
                e matches AnalysisError::MissingColumn(n) && n@ == "Symbol"@
            } else if spec_kept(t.spec_row_count() as int, pred).len() == 0 {
                e is EmptySelection
            } else if spec_find_col(t.cols@, "Symbol"@) is None {
                e matches AnalysisError::MissingColumn(n) && n@ == "Symbol"@
            } else if spec_find_col(t.cols@, "Company"@) is None {
                e matches AnalysisError::MissingColumn(n) && n@ == "Company"@
            } else if spec_find_col(t.cols@, "Current Div"@) is None {
                e matches AnalysisError::MissingColumn(n) && n@ == "Current Div"@
            } else if spec_find_col(t.cols@, "Div Yield"@) is None {
                e matches AnalysisError::MissingColumn(n) && n@ == "Div Yield"@
            } else if spec_find_col(t.cols@, "Price"@) is None {
                e matches AnalysisError::MissingColumn(n) && n@ == "Price"@
            } else if !spec_has_float_col(*t, "Annualized"@) {
                e matches AnalysisError::MissingColumn(n) && n@ == "Annualized"@
            } else {
                e matches AnalysisError::MissingColumn(n) && n@ == "CF/Share"@
            }
        },
        r matches Ok(out) ==> {
            let pred = (match company {
                Some(c) => spec_symbol_pred(spec_text_col(*t, "Symbol"@), c@),
                None => spec_all_rows_pred(),
            });
            let idxs = spec_kept(t.spec_row_count() as int, pred);
            let ann = spec_float_col(*t, "Annualized"@);
            let cf = spec_float_col(*t, "CF/Share"@);
            &&& idxs.len() > 0
            &&& out.cols@.len() == 6
            &&& out.wf()
            &&& out.spec_row_count() == idxs.len()
            &&& out.cols@[5].name@ == "Div Payout Rate[%]"@
            &&& out.cols@[5].data matches ColData::Floats(v) && v@.len() == idxs.len() && (forall|
                k: int,
            |
                0 <= k < idxs.len() ==> v@[k] == spec_rate_entry(
                    ann[#[trigger] idxs[k] as int],
                    cf[idxs[k] as int],
                ))
            &&& (spec_find_col(t.cols@, "Symbol"@) matches Some(j) && spec_col_selected(
                t.cols@[j],
                out.cols@[0],
                idxs,
            ))
            &&& (spec_find_col(t.cols@, "Company"@) matches Some(j) && spec_col_selected(
                t.cols@[j],
                out.cols@[1],
                idxs,
            ))
            &&& (spec_find_col(t.cols@, "Current Div"@) matches Some(j) && spec_col_selected(
                t.cols@[j],
                out.cols@[2],
                idxs,
            ))
            &&& (spec_find_col(t.cols@, "Div Yield"@) matches Some(j) && spec_col_selected(
                t.cols@[j],
                out.cols@[3],
                idxs,
            ))
            &&& (spec_find_col(t.cols@, "Price"@) matches Some(j) && spec_col_selected(
                t.cols@[j],
                out.cols@[4],
                idxs,
            ))
        },
        r matches Err(e) ==> !(e is CategoryNotFound),
{
    let nrows = crate::table::row_count(t);
    let ghost pred = (match company {
        Some(c) => spec_symbol_pred(spec_text_col(*t, "Symbol"@), c@),
        None => spec_all_rows_pred(),
    });
    let mut kept: Vec<usize> = Vec::new();
    match company {
        Some(c) => {
            let sym = match text_col(t, "Symbol") {
                Ok(v) => v,
                Err(e) => {
                    return Err(e);
                },
            };
            proof {
                lemma_find_col_nonneg(t.cols@, "Symbol"@);
            }
            let wanted: String = c.to_owned();
            let mut i: usize = 0;
            while i < nrows
                invariant
                    0 <= i <= nrows,
                    kept@ == spec_kept(i as int, pred),
                decreases nrows - i,
            {
                let hit = match &sym[i] {
                    Some(x) => *x == wanted,
                    None => false,
                };
                if hit {
                    kept.push(i);
                }
                i = i + 1;
                proof {
                    if pred(i - 1) {
                        assert(spec_kept(i as int, pred) =~= spec_kept(i as int - 1, pred).push(
                            (i - 1) as usize,
                        ));
                    } else {
                        assert(spec_kept(i as int, pred) =~= spec_kept(i as int - 1, pred));
                    }
                }
            }
        },
        None => {
            let mut i: usize = 0;
            while i < nrows
                invariant
                    0 <= i <= nrows,
                    kept@ == spec_kept(i as int, pred),
                decreases nrows - i,
            {
                kept.push(i);
                i = i + 1;
                proof {
                    assert(spec_kept(i as int, pred) =~= spec_kept(i as int - 1, pred).push(
                        (i - 1) as usize,
                    ));
                }
            }
        },
    }
    if kept.len() == 0 {
        return Err(AnalysisError::EmptySelection);
    }
    proof {
        lemma_kept_props(nrows as int, pred);
    }
    let filtered = select_rows(t, &kept);
    let ghost idxs = kept@;

    proof {
        assert(forall|j: int|
            0 <= j < t.cols@.len() ==> (#[trigger] t.cols@[j].name)@ == filtered.cols@[j].name@);
        crate::screen::lemma_find_col_same_names(t.cols@, filtered.cols@, "Symbol"@);
        crate::screen::lemma_find_col_same_names(t.cols@, filtered.cols@, "Company"@);
        crate::screen::lemma_find_col_same_names(t.cols@, filtered.cols@, "Current Div"@);
        crate::screen::lemma_find_col_same_names(t.cols@, filtered.cols@, "Div Yield"@);
        crate::screen::lemma_find_col_same_names(t.cols@, filtered.cols@, "Price"@);
    }
    let mut cols: Vec<Column> = Vec::new();
    let c0 = match copy_column(&filtered, "Symbol") {
        Ok(c) => c,
        Err(e) => {
            return Err(e);
        },
    };
    let ghost gc0 = c0;
    cols.push(c0);
    let c1 = match copy_column(&filtered, "Company") {
        Ok(c) => c,
        Err(e) => {
            return Err(e);
        },
    };
    let ghost gc1 = c1;
    cols.push(c1);
    let c2 = match copy_column(&filtered, "Current Div") {
        Ok(c) => c,
        Err(e) => {
            return Err(e);
        },
    };
    let ghost gc2 = c2;
    cols.push(c2);
    let c3 = match copy_column(&filtered, "Div Yield") {
        Ok(c) => c,
        Err(e) => {
            return Err(e);
        },
    };
    let ghost gc3 = c3;
    cols.push(c3);
    let c4 = match copy_column(&filtered, "Price") {
        Ok(c) => c,
        Err(e) => {
            return Err(e);
        },
    };
    let ghost gc4 = c4;
    cols.push(c4);

    let ann = match float_col(t, "Annualized") {
        Ok(v) => v,
        Err(e) => {
            return Err(e);
        },
    };
    let cf = match float_col(t, "CF/Share") {
        Ok(v) => v,
        Err(e) => {
            return Err(e);
        },
    };
    proof {
        lemma_find_col_nonneg(t.cols@, "Annualized"@);
        lemma_find_col_nonneg(t.cols@, "CF/Share"@);
    }
    let m = kept.len();
    let mut rates: Vec<Option<i64>> = Vec::new();
    let mut k: usize = 0;
    while k < m
        invariant
            0 <= k <= m,
            rates@.len() == k,
            forall|q: int|
                0 <= q < k ==> rates@[q] == spec_rate_entry(
                    ann@[#[trigger] idxs[q] as int],
                    cf@[idxs[q] as int],
                ),
        decreases m - k,
    {
        let row = kept[k];
        let entry: Option<i64> = match (ann[row], cf[row]) {
            (Some(a), Some(f)) => {
                if f != 0 {
                    match div_fix(a, f) {
                        Some(q) => match mul_int(q, 100) {
                            Some(v) => Some(v),
                            None => None,
                        },
                        None => None,
                    }
                } else {
                    None
                }
            },
            _ => None,
        };
        rates.push(entry);
        k = k + 1;
    }
    cols.push(Column { name: "Div Payout Rate[%]".to_owned(), data: ColData::Floats(rates) });
    let out = Table { cols };
    proof {
        assert(out.cols@[0] == gc0 && out.cols@[1] == gc1 && out.cols@[2] == gc2 && out.cols@[3]
            == gc3 && out.cols@[4] == gc4);
        lemma_find_col_nonneg(filtered.cols@, "Symbol"@);
        lemma_find_col_nonneg(filtered.cols@, "Company"@);
        lemma_find_col_nonneg(filtered.cols@, "Current Div"@);
        lemma_find_col_nonneg(filtered.cols@, "Div Yield"@);
        lemma_find_col_nonneg(filtered.cols@, "Price"@);
        assert(filtered.cols@.len() > 0);
        assert(filtered.spec_row_count() == idxs.len());
        assert(spec_col_len(out.cols@[0]) == idxs.len());
        assert(spec_col_len(out.cols@[1]) == idxs.len());
        assert(spec_col_len(out.cols@[2]) == idxs.len());
        assert(spec_col_len(out.cols@[3]) == idxs.len());
        assert(spec_col_len(out.cols@[4]) == idxs.len());
        assert(spec_col_len(out.cols@[5]) == idxs.len());
        assert forall|j: int| 0 <= j < out.cols@.len() implies spec_col_len(#[trigger] out.cols@[j])
            == out.spec_row_count() by {
            assert(spec_col_len(out.cols@[j]) == idxs.len());
        }
        lemma_copied_selected(*t, filtered, out.cols@[0], idxs, "Symbol"@);
        lemma_copied_selected(*t, filtered, out.cols@[1], idxs, "Company"@);
        lemma_copied_selected(*t, filtered, out.cols@[2], idxs, "Current Div"@);
        lemma_copied_selected(*t, filtered, out.cols@[3], idxs, "Div Yield"@);
        lemma_copied_selected(*t, filtered, out.cols@[4], idxs, "Price"@);
    }
    Ok(out)
}

/// A view-equal copy of a selected column is itself that selection.
proof fn lemma_copied_selected(
    tin: Table,
    filtered: Table,
    c: Column,
    idxs: Seq<usize>,
    name: Seq<char>,
)
    requires
        spec_is_selection(tin, filtered, idxs),
        spec_find_col(filtered.cols@, name) matches Some(j) && spec_col_eq(c, filtered.cols@[j]),
    ensures
        spec_find_col(tin.cols@, name) matches Some(j2) && spec_col_selected(
            tin.cols@[j2],
            c,
            idxs,
        ),
{
    assert(forall|j: int|
        0 <= j < tin.cols@.len() ==> (#[trigger] tin.cols@[j].name)@ == filtered.cols@[j].name@);
    crate::screen::lemma_find_col_same_names(tin.cols@, filtered.cols@, name);
    lemma_find_col_nonneg(tin.cols@, name);
    let j = spec_find_col(tin.cols@, name).unwrap();
    assert(spec_col_selected(tin.cols@[j], filtered.cols@[j], idxs));
}

/// Whether two columns carry the same name and entries.
pub open spec fn spec_col_eq(a: Column, b: Column) -> bool {
    &&& a.name@ == b.name@
    &&& match (a.data, b.data) {
        (ColData::Floats(x), ColData::Floats(y)) => x@ == y@,
        (ColData::Texts(x), ColData::Texts(y)) => x@ == y@,
        _ => false,
    }
}

/// Copies the named column of a table, or reports it missing.
#[verifier::loop_isolation(false)]
fn copy_column(t: &Table, name: &str) -> (r: Result<Column, AnalysisError>)
    ensures
        r is Ok <==> spec_find_col(t.cols@, name@) is Some,
        r matches Ok(c) ==> (spec_find_col(t.cols@, name@) matches Some(j) && spec_col_eq(
            c,
            t.cols@[j],
        ) && spec_col_len(c) == spec_col_len(t.cols@[j])),
        r matches Err(e) ==> e matches AnalysisError::MissingColumn(n) && n@ == name@,
{
    let j = match find_col(t, name) {
        Some(j) => j,
        None => {
            return Err(AnalysisError::MissingColumn(name.to_owned()));
        },
    };
    let src = &t.cols[j];
    let data: ColData = match &src.data {
        ColData::Floats(v) => {
            let mut b: Vec<Option<i64>> = Vec::new();
            let n = v.len();
            let mut i: usize = 0;
            while i < n
                invariant
                    0 <= i <= n,
                    b@.len() == i,
                    forall|q: int| 0 <= q < i ==> b@[q] == v@[q],
                decreases n - i,
            {
                b.push(v[i]);
                i = i + 1;
            }
            proof {
                assert(b@ =~= v@);
            }
            ColData::Floats(b)
        },
        ColData::Texts(v) => {
            let mut b: Vec<Option<String>> = Vec::new();
            let n = v.len();
            let mut i: usize = 0;
            while i < n
                invariant
                    0 <= i <= n,
                    b@.len() == i,
                    forall|q: int| 0 <= q < i ==> b@[q] == v@[q],
                decreases n - i,
            {
                let e: Option<String> = match &v[i] {
                    Some(s) => Some(s.clone()),
                    None => None,
                };
                b.push(e);
                i = i + 1;
            }
            proof {
                assert(b@ =~= v@);
            }
            ColData::Texts(b)
        },
    };
    Ok(Column { name: src.name.clone(), data })
}

} // verus!
