//! The companies overview table, built from per-company market-data records.
//!
//! Each record carries one company's figures as plain values; the builder
//! lays them out as the twelve-column overview table, one row per record, in
//! record order.  `sort_table_desc` then orders any table by a numeric
//! column, descending — the overview is sorted by the years of consecutive
//! dividend growth.  Batch fetching, per-company error isolation and the
//! CSV mirror stay with the caller: the builder accepts however many
//! records survived.

use vstd::prelude::*;

use crate::screen::lemma_kept_props;
use crate::screen::lemma_screen_idxs_exact;
use crate::screen::spec_col_sorted_desc;
use crate::screen::spec_kept;
use crate::select::float_col;
use crate::select::lemma_find_col_nonneg;
use crate::select::select_rows;
use crate::select::sort_idxs_desc;
use crate::select::spec_float_col;
use crate::select::spec_has_float_col;
use crate::select::spec_is_selection;
use crate::select::spec_key_at;
use crate::select::spec_rank;
use crate::select::spec_sort_desc;
use crate::summary::spec_all_rows_pred;
use crate::table::AnalysisError;
use crate::table::ColData;
use crate::table::Column;
use crate::table::Table;

verus! {

/// One company's market figures, as plain values; a missing figure stays
/// missing in the table.
#[derive(Debug, Clone)]
pub struct CompanyRecord {
    /// Ticker symbol.
    pub symbol: String,
    /// Last close price.
    pub share_price: i64,
    /// Most recent dividend per share.
    pub recent_div: Option<i64>,
    /// Payouts per year.
    pub annual_frequency: Option<i64>,
    /// Dividend yield, percent.
    pub div_yield: Option<i64>,
    /// One-year dividend growth, percent.
    pub dgr_1y: Option<i64>,
    /// Three-year dividend growth, percent.
    pub dgr_3y: Option<i64>,
    /// Five-year dividend growth, percent.
    pub dgr_5y: Option<i64>,
    /// Ten-year dividend growth, percent.
    pub dgr_10y: Option<i64>,
    /// Consecutive past years of dividend growth.
    pub years_of_growth: Option<i64>,
    /// Payout ratio, percent.
    pub payout_ratio: Option<i64>,
    /// Industry description.
    pub industry_desc: Option<String>,
}

/// Whether the text entry mirrors the record's optional text.
pub open spec fn spec_opt_text_eq(o: Option<String>, s: Option<String>) -> bool {
    match (o, s) {
        (Some(a), Some(b)) => a@ == b@,
        (None, None) => true,
        _ => false,
    }
}

/// Whether `t` is the overview table of `records`, row `i` showing record
/// `i`.
pub open spec fn spec_companies_base(records: Seq<CompanyRecord>, t: Table) -> bool {
    let n = records.len();
    &&& t.cols@.len() == 12
    &&& t.wf()
    &&& t.spec_row_count() == n
    &&& t.cols@[0].name@ == "Symbol"@
    &&& t.cols@[0].data matches ColData::Texts(v) && v@.len() == n && (forall|i: int|
        0 <= i < n ==> (v@[i] matches Some(s) && s@ == (#[trigger] records[i]).symbol@))
    &&& t.cols@[1].name@ == "Share Price"@
    &&& t.cols@[1].data matches ColData::Floats(v) && v@.len() == n && (forall|i: int|
        0 <= i < n ==> v@[i] == Some((#[trigger] records[i]).share_price))
    &&& t.cols@[2].name@ == "Recent Div"@
    &&& t.cols@[2].data matches ColData::Floats(v) && v@.len() == n && (forall|i: int|
        0 <= i < n ==> v@[i] == (#[trigger] records[i]).recent_div)
    &&& t.cols@[3].name@ == "Annual Frequency"@
    &&& t.cols@[3].data matches ColData::Floats(v) && v@.len() == n && (forall|i: int|
        0 <= i < n ==> v@[i] == (#[trigger] records[i]).annual_frequency)
    &&& t.cols@[4].name@ == "Div Yield[%]"@
    &&& t.cols@[4].data matches ColData::Floats(v) && v@.len() == n && (forall|i: int|
        0 <= i < n ==> v@[i] == (#[trigger] records[i]).div_yield)
    &&& t.cols@[5].name@ == "DGR 1Y[%]"@
    &&& t.cols@[5].data matches ColData::Floats(v) && v@.len() == n && (forall|i: int|
        0 <= i < n ==> v@[i] == (#[trigger] records[i]).dgr_1y)
    &&& t.cols@[6].name@ == "DGR 3Y[%]"@
    &&& t.cols@[6].data matches ColData::Floats(v) && v@.len() == n && (forall|i: int|
        0 <= i < n ==> v@[i] == (#[trigger] records[i]).dgr_3y)
    &&& t.cols@[7].name@ == "DGR 5Y[%]"@
    &&& t.cols@[7].data matches ColData::Floats(v) && v@.len() == n && (forall|i: int|
        0 <= i < n ==> v@[i] == (#[trigger] records[i]).dgr_5y)
    &&& t.cols@[8].name@ == "DGR 10Y[%]"@
    &&& t.cols@[8].data matches ColData::Floats(v) && v@.len() == n && (forall|i: int|
        0 <= i < n ==> v@[i] == (#[trigger] records[i]).dgr_10y)
    &&& t.cols@[9].name@ == "Years of consecutive Div growth"@
    &&& t.cols@[9].data matches ColData::Floats(v) && v@.len() == n && (forall|i: int|
        0 <= i < n ==> v@[i] == (#[trigger] records[i]).years_of_growth)
    &&& t.cols@[10].name@ == "Payout ratio[%]"@
    &&& t.cols@[10].data matches ColData::Floats(v) && v@.len() == n && (forall|i: int|
        0 <= i < n ==> v@[i] == (#[trigger] records[i]).payout_ratio)
    &&& t.cols@[11].name@ == "Industry Desc"@
    &&& t.cols@[11].data matches ColData::Texts(v) && v@.len() == n && (forall|i: int|
        0 <= i < n ==> spec_opt_text_eq(v@[i], (#[trigger] records[i]).industry_desc))
}

/// Lays the records out as the overview table, one row per record.
#[verifier::loop_isolation(false)]
pub fn companies_base_table(records: &Vec<CompanyRecord>) -> (t: Table)
    ensures
        spec_companies_base(records@, t),
{
    let n = records.len();
    let mut symbols: Vec<Option<String>> = Vec::new();
    let mut prices: Vec<Option<i64>> = Vec::new();
    let mut divs: Vec<Option<i64>> = Vec::new();
    let mut freqs: Vec<Option<i64>> = Vec::new();
    let mut yields: Vec<Option<i64>> = Vec::new();
    let mut dgr1: Vec<Option<i64>> = Vec::new();
    let mut dgr3: Vec<Option<i64>> = Vec::new();
    let mut dgr5: Vec<Option<i64>> = Vec::new();
    let mut dgr10: Vec<Option<i64>> = Vec::new();
    let mut years: Vec<Option<i64>> = Vec::new();
    let mut payout: Vec<Option<i64>> = Vec::new();
    let mut industry: Vec<Option<String>> = Vec::new();
    let mut i: usize = 0;
    while i < n
        invariant
            0 <= i <= n,
            symbols@.len() == i && prices@.len() == i && divs@.len() == i && freqs@.len() == i
                && yields@.len() == i && dgr1@.len() == i && dgr3@.len() == i && dgr5@.len() == i
                && dgr10@.len() == i && years@.len() == i && payout@.len() == i && industry@.len()
                == i,
            forall|k: int|
                0 <= k < i ==> (symbols@[k] matches Some(s) && s@ == (#[trigger] records@[k]).symbol@),
            forall|k: int| 0 <= k < i ==> prices@[k] == Some((#[trigger] records@[k]).share_price),
            forall|k: int| 0 <= k < i ==> divs@[k] == (#[trigger] records@[k]).recent_div,
            forall|k: int| 0 <= k < i ==> freqs@[k] == (#[trigger] records@[k]).annual_frequency,
            forall|k: int| 0 <= k < i ==> yields@[k] == (#[trigger] records@[k]).div_yield,
            forall|k: int| 0 <= k < i ==> dgr1@[k] == (#[trigger] records@[k]).dgr_1y,
            forall|k: int| 0 <= k < i ==> dgr3@[k] == (#[trigger] records@[k]).dgr_3y,
            forall|k: int| 0 <= k < i ==> dgr5@[k] == (#[trigger] records@[k]).dgr_5y,
            forall|k: int| 0 <= k < i ==> dgr10@[k] == (#[trigger] records@[k]).dgr_10y,
            forall|k: int| 0 <= k < i ==> years@[k] == (#[trigger] records@[k]).years_of_growth,
            forall|k: int| 0 <= k < i ==> payout@[k] == (#[trigger] records@[k]).payout_ratio,
            forall|k: int|
                0 <= k < i ==> spec_opt_text_eq(
                    industry@[k],
                    (#[trigger] records@[k]).industry_desc,
                ),
        decreases n - i,
    {
        let r = &records[i];
        symbols.push(Some(r.symbol.clone()));
        prices.push(Some(r.share_price));
        divs.push(r.recent_div);
        freqs.push(r.annual_frequency);
        yields.push(r.div_yield);
        dgr1.push(r.dgr_1y);
        dgr3.push(r.dgr_3y);
        dgr5.push(r.dgr_5y);
        dgr10.push(r.dgr_10y);
        years.push(r.years_of_growth);
        payout.push(r.payout_ratio);
        let ind: Option<String> = match &r.industry_desc {
            Some(s) => Some(s.clone()),
            None => None,
        };
        industry.push(ind);
        i = i + 1;
    }
    let mut cols: Vec<Column> = Vec::new();
    cols.push(Column { name: "Symbol".to_owned(), data: ColData::Texts(symbols) });
    cols.push(Column { name: "Share Price".to_owned(), data: ColData::Floats(prices) });
    cols.push(Column { name: "Recent Div".to_owned(), data: ColData::Floats(divs) });
    cols.push(Column { name: "Annual Frequency".to_owned(), data: ColData::Floats(freqs) });
    cols.push(Column { name: "Div Yield[%]".to_owned(), data: ColData::Floats(yields) });
    cols.push(Column { name: "DGR 1Y[%]".to_owned(), data: ColData::Floats(dgr1) });
    cols.push(Column { name: "DGR 3Y[%]".to_owned(), data: ColData::Floats(dgr3) });
    cols.push(Column { name: "DGR 5Y[%]".to_owned(), data: ColData::Floats(dgr5) });
    cols.push(Column { name: "DGR 10Y[%]".to_owned(), data: ColData::Floats(dgr10) });
    cols.push(
        Column { name: "Years of consecutive Div growth".to_owned(), data: ColData::Floats(years) },
    );
    cols.push(Column { name: "Payout ratio[%]".to_owned(), data: ColData::Floats(payout) });
    cols.push(Column { name: "Industry Desc".to_owned(), data: ColData::Texts(industry) });
    Table { cols }
}

/// The row order of a whole-table descending sort by the named column.
pub open spec fn spec_table_sort_idxs(t: Table, key_name: Seq<char>) -> Seq<usize> {
    let keys = spec_float_col(t, key_name);
    spec_sort_desc(spec_kept(t.spec_row_count() as int, spec_all_rows_pred()), keys)
}

/// Reorders the whole table by the named numeric column, descending, missing
/// entries last, equal keys kept in their given order.  Fails with
/// `MissingColumn` when the column is absent or not numeric.
#[verifier::loop_isolation(false)]
pub fn sort_table_desc(t: &Table, key_name: &str) -> (r: Result<Table, AnalysisError>)
    requires
        t.wf(),
    ensures
        r is Ok <==> spec_has_float_col(*t, key_name@),
        r matches Ok(out) ==> {
            &&& spec_is_selection(*t, out, spec_table_sort_idxs(*t, key_name@))
            &&& out.wf()
            &&& out.spec_row_count() == t.spec_row_count()
            &&& spec_col_sorted_desc(out, key_name@)
        },
        r matches Err(e) ==> e matches AnalysisError::MissingColumn(n) && n@ == key_name@,
{
    let keys = match float_col(t, key_name) {
        Ok(v) => v,
        Err(e) => {
            return Err(e);
        },
    };
    let nrows = keys.len();
    proof {
        lemma_find_col_nonneg(t.cols@, key_name@);
        assert(nrows == t.spec_row_count());
    }
    let ghost pred = spec_all_rows_pred();
    let mut kept: Vec<usize> = Vec::new();
    let mut i: usize = 0;
    while i < nrows
        invariant
            0 <= i <= nrows,
            kept@.len() == i,
            kept@ == spec_kept(i as int, pred),
        decreases nrows - i,
    {
        kept.push(i);
        i = i + 1;
        proof {
            assert(spec_kept(i as int, pred) =~= spec_kept(i as int - 1, pred).push(
                (i - 1) as usize,
            ));
        }
    }
    proof {
        lemma_kept_props(nrows as int, pred);
    }
    let sorted = sort_idxs_desc(&kept, keys);
    proof {
        lemma_screen_idxs_exact(nrows as int, pred, keys@);
        assert forall|k: int| 0 <= k < sorted@.len() implies (#[trigger] sorted@[k] as int)
            < t.spec_row_count() by {
            assert(sorted@.contains(sorted@[k]));
        }
    }
    let out = select_rows(t, &sorted);
    proof {
        crate::screen::lemma_screen_output(*t, out, sorted@, key_name@);
        let okeys = spec_float_col(out, key_name@);
        assert forall|p: int, q: int|
            0 <= p <= q < okeys.len() implies spec_rank(#[trigger] okeys[p]) >= spec_rank(
            #[trigger] okeys[q],
        ) by {
            assert(spec_key_at(keys@, sorted@[p]) >= spec_key_at(keys@, sorted@[q]));
        }
        assert(out.cols@.len() > 0 ==> out.spec_row_count() == sorted@.len());
        if t.cols@.len() == 0 {
            assert(out.spec_row_count() == 0);
        }
    }
    Ok(out)
}

} // verus!
