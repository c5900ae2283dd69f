//! The screening pipeline: yield band, payout ratio and growth-rate filters.
//!
//! Each stage takes a table, keeps the rows its criterion accepts, sorts the
//! survivors descending by a key column, and returns a fresh table; the input
//! is never touched, so stages compose in any order.  A row whose screened
//! value is missing — or whose ratio cannot be computed because its divisor
//! is zero or the quotient leaves the fixed-point range — is dropped, which
//! matches treating an uncomputable comparison as false.
//!
//! The contract of each stage pins the output to a single specification
//! value: the rows satisfying the stage's predicate, in the stable descending
//! order of `spec_sort_desc`.  `lemma_screen_idxs_exact` states the law
//! behind all three stages: the selected index list names exactly the rows
//! the predicate keeps, each once, in non-increasing key order.

use vstd::prelude::*;

use crate::fixed::SCALE;
use crate::fixed::fits;
use crate::fixed::fix_div;
use crate::fixed::fix_mul;
use crate::fixed::div_fix;
use crate::fixed::mul_fix;
use crate::select::float_col;
use crate::select::lemma_find_col_nonneg;
use crate::select::lemma_sort_desc_props;
use crate::select::sort_idxs_desc;
use crate::select::select_rows;
use crate::select::spec_col_selected;
use crate::select::spec_find_col;
use crate::select::spec_float_col;
use crate::select::spec_has_float_col;
use crate::select::spec_is_selection;
use crate::select::spec_key_at;
use crate::select::spec_rank;
use crate::select::spec_sort_desc;
use crate::select::spec_sorted_desc;
use crate::table::AnalysisError;
use crate::table::Column;
use crate::table::Table;
use crate::table::spec_col_len;

verus! {

/// One and a half, at fixed-point scale: the margin over the S&P 500 yield.
pub const YIELD_MARGIN: i64 = 15_000_000;

/// The row indices, in row order, that the predicate keeps among `0..n`.
pub open spec fn spec_kept(n: int, pred: spec_fn(int) -> bool) -> Seq<usize>
    decreases n,
{
    if n <= 0 {
        Seq::empty()
    } else {
        spec_kept(n - 1, pred) + (if pred(n - 1) {
            seq![(n - 1) as usize]
        } else {
            Seq::empty()
        })
    }
}

/// What the filter guarantees: kept indices are in range and satisfy the
/// predicate, every satisfying index is kept, and they come in strictly
/// increasing row order.
pub proof fn lemma_kept_props(n: int, pred: spec_fn(int) -> bool)
    requires
        0 <= n <= usize::MAX,
    ensures
        forall|p: int|
            0 <= p < spec_kept(n, pred).len() ==> (#[trigger] spec_kept(n, pred)[p] as int) < n
                && pred(spec_kept(n, pred)[p] as int),
        forall|i: int| 0 <= i < n && #[trigger] pred(i) ==> spec_kept(n, pred).contains(i as usize),
        forall|p: int, q: int|
            0 <= p < q < spec_kept(n, pred).len() ==> spec_kept(n, pred)[p] < spec_kept(n, pred)[q],
        spec_kept(n, pred).no_duplicates(),
    decreases n,
{
    if n > 0 {
        lemma_kept_props(n - 1, pred);
        let prev = spec_kept(n - 1, pred);
        let s = spec_kept(n, pred);
        if pred(n - 1) {
            assert(s =~= prev.push((n - 1) as usize));
            assert(forall|p: int| 0 <= p < prev.len() ==> s[p] == prev[p]);
            assert(s[s.len() - 1] == (n - 1) as usize);
            assert forall|i: int| 0 <= i < n && #[trigger] pred(i) implies s.contains(i as usize) by {
                if i == n - 1 {
                    assert(s[s.len() - 1] == i as usize);
                } else {
                    let k = choose|k: int| 0 <= k < prev.len() && prev[k] == i as usize;
                    assert(s[k] == i as usize);
                }
            }
            assert(forall|p: int, q: int| 0 <= p < q < s.len() ==> s[p] < s[q]);
            assert(s.no_duplicates()) by {
                assert(forall|p: int, q: int| 0 <= p < q < s.len() ==> s[p] != s[q]);
            }
        } else {
            assert(s =~= prev);
        }
    }
}

/// Law behind every screening stage: the selected index list names exactly
/// the rows the predicate keeps among `0..n`, each exactly once, in
/// non-increasing key order.
pub proof fn lemma_screen_idxs_exact(n: int, pred: spec_fn(int) -> bool, keys: Seq<Option<i64>>)
    requires
        0 <= n <= usize::MAX,
    ensures
        spec_sort_desc(spec_kept(n, pred), keys).no_duplicates(),
        forall|y: usize|
            #[trigger] spec_sort_desc(spec_kept(n, pred), keys).contains(y) <==> ((y as int) < n
                && pred(y as int)),
        spec_sorted_desc(spec_sort_desc(spec_kept(n, pred), keys), keys),
        spec_sort_desc(spec_kept(n, pred), keys).len() == spec_kept(n, pred).len(),
{
    lemma_kept_props(n, pred);
    lemma_sort_desc_props(spec_kept(n, pred), keys);
    let kept = spec_kept(n, pred);
    let sorted = spec_sort_desc(kept, keys);
    assert forall|y: usize| #[trigger] sorted.contains(y) implies ((y as int) < n && pred(y as int)) by {
        assert(kept.contains(y));
        let k = choose|k: int| 0 <= k < kept.len() && kept[k] == y;
    }
    assert forall|y: usize| (y as int) < n && pred(y as int) implies #[trigger] sorted.contains(y) by {
        assert(kept.contains(y));
    }
}

/// Two tables whose columns carry the same names agree on column lookup.
pub proof fn lemma_find_col_same_names(a: Seq<Column>, b: Seq<Column>, name: Seq<char>)
    requires
        a.len() == b.len(),
        forall|j: int| 0 <= j < a.len() ==> (#[trigger] a[j].name)@ == b[j].name@,
    ensures
        spec_find_col(a, name) == spec_find_col(b, name),
    decreases a.len(),
{
    if a.len() > 0 {
        lemma_find_col_same_names(a.drop_first(), b.drop_first(), name);
        assert(forall|j: int|
            0 <= j < a.drop_first().len() ==> #[trigger] a.drop_first()[j] == a[j + 1]
                && b.drop_first()[j] == b[j + 1]);
    }
}

/// How a selected table's key column reads: the same column is found, and
/// entry `p` is the input's entry at the selected row `idxs[p]`.
pub proof fn lemma_screen_output(inp: Table, out: Table, idxs: Seq<usize>, name: Seq<char>)
    requires
        inp.wf(),
        spec_is_selection(inp, out, idxs),
        spec_has_float_col(inp, name),
        forall|k: int| 0 <= k < idxs.len() ==> (#[trigger] idxs[k] as int) < inp.spec_row_count(),
    ensures
        spec_has_float_col(out, name),
        spec_float_col(out, name).len() == idxs.len(),
        forall|p: int|
            0 <= p < idxs.len() ==> #[trigger] spec_float_col(out, name)[p] == spec_float_col(
                inp,
                name,
            )[idxs[p] as int],
{
    assert(forall|j: int|
        0 <= j < inp.cols@.len() ==> (#[trigger] inp.cols@[j].name)@ == out.cols@[j].name@);
    lemma_find_col_same_names(inp.cols@, out.cols@, name);
    lemma_find_col_nonneg(inp.cols@, name);
    let j = spec_find_col(inp.cols@, name).unwrap();
    assert(spec_col_selected(inp.cols@[j], out.cols@[j], idxs));
    assert(spec_col_len(inp.cols@[j]) == inp.spec_row_count());
}

/// `max(spComparisonYield * 1.5, inflationRate, minYield)`.
pub open spec fn spec_yield_threshold(sp500_divy: int, inflation: int, min_divy: int) -> int {
    let min_ref = fix_mul(sp500_divy, YIELD_MARGIN as int);
    let m1 = if min_ref > inflation {
        min_ref
    } else {
        inflation
    };
    if min_divy > m1 {
        min_divy
    } else {
        m1
    }
}

/// Whether a dividend yield passes the band: present, strictly above the
/// threshold, and at most the cap.
pub open spec fn spec_yield_keep(v: Option<i64>, thr: int, max_divy: int) -> bool {
    v matches Some(x) && thr < x as int && x as int <= max_divy
}

/// The yield predicate over the key column.
pub open spec fn spec_yield_pred(keys: Seq<Option<i64>>, thr: int, max_divy: int) -> spec_fn(
    int,
) -> bool {
    |i: int| spec_yield_keep(keys[i], thr, max_divy)
}

/// The rows the yield screen keeps, sorted descending by dividend yield.
pub open spec fn spec_yield_screen_idxs(t: Table, thr: int, max_divy: int) -> Seq<usize> {
    let keys = spec_float_col(t, "Div Yield"@);
    spec_sort_desc(
        spec_kept(t.spec_row_count() as int, spec_yield_pred(keys, thr, max_divy)),
        keys,
    )
}

/// Whether the named numeric column of `t` is in non-increasing order.
pub open spec fn spec_col_sorted_desc(t: Table, name: Seq<char>) -> bool {
    let keys = spec_float_col(t, name);
    forall|p: int, q: int|
        0 <= p <= q < keys.len() ==> spec_rank(#[trigger] keys[p]) >= spec_rank(#[trigger] keys[q])
}

/// Keeps the rows whose dividend yield lies strictly above
/// `max(spComparisonYield * 1.5, inflationRate, minYield)` and at most
/// `max_divy`, sorted descending by yield.  Fails with `MissingColumn` when
/// the table has no numeric `"Div Yield"` column, and with `AmountOverflow`
/// when the threshold product leaves the fixed-point range.
#[verifier::loop_isolation(false)]
pub fn analyze_div_yield(table: &Table, sp500_divy: i64, inflation: i64, min_divy: i64, max_divy: i64) -> (r:
    Result<Table, AnalysisError>)
    requires
        table.wf(),
    ensures
        r is Ok <==> (fits(fix_mul(sp500_divy as int, YIELD_MARGIN as int)) && spec_has_float_col(
            *table,
            "Div Yield"@,
        )),
        r matches Err(e) ==> (if !fits(fix_mul(sp500_divy as int, YIELD_MARGIN as int)) {
            e is AmountOverflow
        } else {
            e matches AnalysisError::MissingColumn(n) && n@ == "Div Yield"@
        }),
        r matches Ok(out) ==> {
            let thr = spec_yield_threshold(sp500_divy as int, inflation as int, min_divy as int);
            let idxs = spec_yield_screen_idxs(*table, thr, max_divy as int);
            &&& spec_is_selection(*table, out, idxs)
            &&& out.wf()
            &&& spec_col_sorted_desc(out, "Div Yield"@)
            &&& spec_float_col(out, "Div Yield"@).len() == idxs.len()
            &&& forall|p: int|
                0 <= p < idxs.len() ==> spec_yield_keep(
                    #[trigger] spec_float_col(out, "Div Yield"@)[p],
                    thr,
                    max_divy as int,
                )
        },
{
    let min_ref = match mul_fix(sp500_divy, YIELD_MARGIN) {
        Some(v) => v,
        None => {
            return Err(AnalysisError::AmountOverflow);
        },
    };
    let mut threshold = if min_ref > inflation {
        min_ref
    } else {
        inflation
    };
    if min_divy > threshold {
        threshold = min_divy;
    }
    let ghost thr = spec_yield_threshold(sp500_divy as int, inflation as int, min_divy as int);
    assert(threshold as int == thr);

    let keys = match float_col(table, "Div Yield") {
        Ok(v) => v,
        Err(e) => {
            return Err(e);
        },
    };
    let nrows = keys.len();
    proof {
        lemma_find_col_nonneg(table.cols@, "Div Yield"@);
        assert(nrows == table.spec_row_count());
    }
    let ghost pred = spec_yield_pred(keys@, thr, max_divy as int);

    let mut kept: Vec<usize> = Vec::new();
    let mut i: usize = 0;
    while i < nrows
        invariant
            0 <= i <= nrows,
            kept@ == spec_kept(i as int, pred),
        decreases nrows - i,
    {
        let keep = match keys[i] {
            Some(v) => threshold < v && v <= max_divy,
            None => false,
        };
        if keep {
            kept.push(i);
        }
        i = i + 1;
        proof {
            if pred(i - 1) {
                assert(spec_kept(i as int, pred) =~= spec_kept(i as int - 1, pred).push(
                    (i - 1) as usize,
                ));
            } else {
                assert(spec_kept(i as int, pred) =~= spec_kept(i as int - 1, pred));
            }
        }
    }
    proof {
        lemma_kept_props(nrows as int, pred);
    }
    let sorted = sort_idxs_desc(&kept, keys);
    proof {
        lemma_screen_idxs_exact(nrows as int, pred, keys@);
        assert forall|k: int| 0 <= k < sorted@.len() implies (#[trigger] sorted@[k] as int)
            < table.spec_row_count() by {
            assert(sorted@.contains(sorted@[k]));
        }
    }
    let out = select_rows(table, &sorted);
    proof {
        lemma_screen_output(*table, out, sorted@, "Div Yield"@);
        let okeys = spec_float_col(out, "Div Yield"@);
        assert forall|p: int, q: int|
            0 <= p <= q < okeys.len() implies spec_rank(#[trigger] okeys[p]) >= spec_rank(
            #[trigger] okeys[q],
        ) by {
            assert(spec_key_at(keys@, sorted@[p]) >= spec_key_at(keys@, sorted@[q]));
        }
        assert forall|p: int| 0 <= p < sorted@.len() implies spec_yield_keep(
            #[trigger] spec_float_col(out, "Div Yield"@)[p],
            thr,
            max_divy as int,
        ) by {
            assert(sorted@.contains(sorted@[p]));
            assert(pred(sorted@[p] as int));
        }
    }
    Ok(out)
}

/// Whether a row passes the payout screen: both values present, the cash
/// flow nonzero, and the payout ratio `CurrentDiv / CFPerShare` computable
/// and strictly below the ceiling.
pub open spec fn spec_payout_keep(cd: Option<i64>, cf: Option<i64>, max_threshold: int) -> bool {
    cd matches Some(c) && cf matches Some(f) && f != 0 && fits(fix_div(c as int, f as int))
        && fix_div(c as int, f as int) < max_threshold
}

/// The payout predicate over the two value columns.
pub open spec fn spec_payout_pred(cd: Seq<Option<i64>>, cf: Seq<Option<i64>>, max_threshold: int) -> spec_fn(
    int,
) -> bool {
    |i: int| spec_payout_keep(cd[i], cf[i], max_threshold)
}

/// The rows the payout screen keeps, sorted descending by dividend yield.
pub open spec fn spec_payout_screen_idxs(t: Table, max_threshold: int) -> Seq<usize> {
    let cd = spec_float_col(t, "Current Div"@);
    let cf = spec_float_col(t, "CF/Share"@);
    let keys = spec_float_col(t, "Div Yield"@);
    spec_sort_desc(
        spec_kept(t.spec_row_count() as int, spec_payout_pred(cd, cf, max_threshold)),
        keys,
    )
}

/// Keeps the rows whose payout ratio `CurrentDiv / CFPerShare` is strictly
/// below `max_threshold`, sorted descending by dividend yield.  A row whose
/// ratio cannot be computed is dropped.  Fails with `MissingColumn` when
/// `"Current Div"`, `"CF/Share"` or the `"Div Yield"` sort column is absent
/// or not numeric.
#[verifier::loop_isolation(false)]
pub fn analyze_dividend_payout_rate(table: &Table, max_threshold: i64) -> (r: Result<
    Table,
    AnalysisError,
>)
    requires
        table.wf(),
    ensures
        r is Ok <==> (spec_has_float_col(*table, "Current Div"@) && spec_has_float_col(
            *table,
            "CF/Share"@,
        ) && spec_has_float_col(*table, "Div Yield"@)),
        r matches Err(e) ==> (e matches AnalysisError::MissingColumn(n) && (if !spec_has_float_col(
            *table,
            "Current Div"@,
        ) {
            n@ == "Current Div"@
        } else if !spec_has_float_col(*table, "CF/Share"@) {
            n@ == "CF/Share"@
        } else {
            n@ == "Div Yield"@
        })),
        r matches Ok(out) ==> {
            let idxs = spec_payout_screen_idxs(*table, max_threshold as int);
            let cd = spec_float_col(*table, "Current Div"@);
            let cf = spec_float_col(*table, "CF/Share"@);
            &&& spec_is_selection(*table, out, idxs)
            &&& out.wf()
            &&& spec_col_sorted_desc(out, "Div Yield"@)
            &&& forall|p: int|
                0 <= p < idxs.len() ==> spec_payout_keep(
                    cd[#[trigger] idxs[p] as int],
                    cf[idxs[p] as int],
                    max_threshold as int,
                )
        },
{
    let cd = match float_col(table, "Current Div") {
        Ok(v) => v,
        Err(e) => {
            return Err(e);
        },
    };
    let cf = match float_col(table, "CF/Share") {
        Ok(v) => v,
        Err(e) => {
            return Err(e);
        },
    };
    let keys = match float_col(table, "Div Yield") {
        Ok(v) => v,
        Err(e) => {
            return Err(e);
        },
    };
    let nrows = cd.len();
    proof {
        lemma_find_col_nonneg(table.cols@, "Current Div"@);
        lemma_find_col_nonneg(table.cols@, "CF/Share"@);
        lemma_find_col_nonneg(table.cols@, "Div Yield"@);
        assert(nrows == table.spec_row_count());
        assert(cf@.len() == table.spec_row_count());
    }
    let ghost pred = spec_payout_pred(cd@, cf@, max_threshold as int);

    let mut kept: Vec<usize> = Vec::new();
    let mut i: usize = 0;
    while i < nrows
        invariant
            0 <= i <= nrows,
            kept@ == spec_kept(i as int, pred),
        decreases nrows - i,
    {
        let keep = match (cd[i], cf[i]) {
            (Some(c), Some(f)) => {
                if f != 0 {
                    match div_fix(c, f) {
                        Some(ratio) => ratio < max_threshold,
                        None => false,
                    }
                } else {
                    false
                }
            },
            _ => false,
        };
        if keep {
            kept.push(i);
        }
        i = i + 1;
        proof {
            if pred(i - 1) {
                assert(spec_kept(i as int, pred) =~= spec_kept(i as int - 1, pred).push(
                    (i - 1) as usize,
                ));
            } else {
                assert(spec_kept(i as int, pred) =~= spec_kept(i as int - 1, pred));
            }
        }
    }
    proof {
        lemma_kept_props(nrows as int, pred);
    }
    let sorted = sort_idxs_desc(&kept, keys);
    proof {
        lemma_screen_idxs_exact(nrows as int, pred, keys@);
        assert forall|k: int| 0 <= k < sorted@.len() implies (#[trigger] sorted@[k] as int)
            < table.spec_row_count() by {
            assert(sorted@.contains(sorted@[k]));
        }
    }
    let out = select_rows(table, &sorted);
    proof {
        lemma_screen_output(*table, out, sorted@, "Div Yield"@);
        let okeys = spec_float_col(out, "Div Yield"@);
        assert forall|p: int, q: int|
            0 <= p <= q < okeys.len() implies spec_rank(#[trigger] okeys[p]) >= spec_rank(
            #[trigger] okeys[q],
        ) by {
            assert(spec_key_at(keys@, sorted@[p]) >= spec_key_at(keys@, sorted@[q]));
        }
        assert forall|p: int| 0 <= p < sorted@.len() implies spec_payout_keep(
            cd@[#[trigger] sorted@[p] as int],
            cf@[sorted@[p] as int],
            max_threshold as int,
        ) by {
            assert(sorted@.contains(sorted@[p]));
            assert(pred(sorted@[p] as int));
        }
    }
    Ok(out)
}

/// Whether a row passes the growth screen: the five-to-ten-year growth ratio
/// `DGR5Y / DGR10Y` computable and at least one, and the one-year growth at
/// least the floor.
pub open spec fn spec_growth_keep(
    d1: Option<i64>,
    d5: Option<i64>,
    d10: Option<i64>,
    min_growth: int,
) -> bool {
    &&& d5 matches Some(a) && d10 matches Some(b) && b != 0 && fits(fix_div(a as int, b as int))
        && fix_div(a as int, b as int) >= SCALE
    &&& d1 matches Some(x) && x as int >= min_growth
}

/// The growth predicate over the three value columns.
pub open spec fn spec_growth_pred(
    d1: Seq<Option<i64>>,
    d5: Seq<Option<i64>>,
    d10: Seq<Option<i64>>,
    min_growth: int,
) -> spec_fn(int) -> bool {
    |i: int| spec_growth_keep(d1[i], d5[i], d10[i], min_growth)
}

/// The rows the growth screen keeps, sorted descending by one-year growth.
pub open spec fn spec_growth_screen_idxs(t: Table, min_growth: int) -> Seq<usize> {
    let d1 = spec_float_col(t, "DGR 1Y"@);
    let d5 = spec_float_col(t, "DGR 5Y"@);
    let d10 = spec_float_col(t, "DGR 10Y"@);
    spec_sort_desc(
        spec_kept(t.spec_row_count() as int, spec_growth_pred(d1, d5, d10, min_growth)),
        d1,
    )
}

/// Keeps the rows where `DGR5Y / DGR10Y >= 1` and `DGR 1Y >= min_growth`,
/// sorted descending by `"DGR 1Y"`.  A row whose ratio cannot be computed is
/// dropped.  All four growth columns, `"DGR 3Y"` included, must be present
/// and numeric — the three-year column is validated though the criterion
/// never reads it, as the reference flow demands.
#[verifier::loop_isolation(false)]
pub fn analyze_div_growth(table: &Table, min_growth_rate: i64) -> (r: Result<Table, AnalysisError>)
    requires
        table.wf(),
    ensures
        r is Ok <==> (spec_has_float_col(*table, "DGR 1Y"@) && spec_has_float_col(
            *table,
            "DGR 3Y"@,
        ) && spec_has_float_col(*table, "DGR 5Y"@) && spec_has_float_col(*table, "DGR 10Y"@)),
        r matches Err(e) ==> (e matches AnalysisError::MissingColumn(n) && (if !spec_has_float_col(
            *table,
            "DGR 1Y"@,
        ) {
            n@ == "DGR 1Y"@
        } else if !spec_has_float_col(*table, "DGR 3Y"@) {
            n@ == "DGR 3Y"@
        } else if !spec_has_float_col(*table, "DGR 5Y"@) {
            n@ == "DGR 5Y"@
        } else {
            n@ == "DGR 10Y"@
        })),
        r matches Ok(out) ==> {
            let idxs = spec_growth_screen_idxs(*table, min_growth_rate as int);
            let d1 = spec_float_col(*table, "DGR 1Y"@);
            let d5 = spec_float_col(*table, "DGR 5Y"@);
            let d10 = spec_float_col(*table, "DGR 10Y"@);
            &&& spec_is_selection(*table, out, idxs)
            &&& out.wf()
            &&& spec_col_sorted_desc(out, "DGR 1Y"@)
            &&& forall|p: int|
                0 <= p < idxs.len() ==> spec_growth_keep(
                    d1[#[trigger] idxs[p] as int],
                    d5[idxs[p] as int],
                    d10[idxs[p] as int],
                    min_growth_rate as int,
                )
        },
{
    let d1 = match float_col(table, "DGR 1Y") {
        Ok(v) => v,
        Err(e) => {
            return Err(e);
        },
    };
    match float_col(table, "DGR 3Y") {
        Ok(_) => (),
        Err(e) => {
            return Err(e);
        },
    };
    let d5 = match float_col(table, "DGR 5Y") {
        Ok(v) => v,
        Err(e) => {
            return Err(e);
        },
    };
    let d10 = match float_col(table, "DGR 10Y") {
        Ok(v) => v,
        Err(e) => {
            return Err(e);
        },
    };
    let nrows = d1.len();
    proof {
        lemma_find_col_nonneg(table.cols@, "DGR 1Y"@);
        lemma_find_col_nonneg(table.cols@, "DGR 5Y"@);
        lemma_find_col_nonneg(table.cols@, "DGR 10Y"@);
        assert(nrows == table.spec_row_count());
        assert(d5@.len() == table.spec_row_count());
        assert(d10@.len() == table.spec_row_count());
    }
    let ghost pred = spec_growth_pred(d1@, d5@, d10@, min_growth_rate as int);

    let mut kept: Vec<usize> = Vec::new();
    let mut i: usize = 0;
    while i < nrows
        invariant
            0 <= i <= nrows,
            kept@ == spec_kept(i as int, pred),
        decreases nrows - i,
    {
        let ratio_ok = match (d5[i], d10[i]) {
            (Some(a), Some(b)) => {
                if b != 0 {
                    match div_fix(a, b) {
                        Some(ratio) => ratio >= SCALE,
                        None => false,
                    }
                } else {
                    false
                }
            },
            _ => false,
        };
        let growth_ok = match d1[i] {
            Some(x) => x >= min_growth_rate,
            None => false,
        };
        if ratio_ok && growth_ok {
            kept.push(i);
        }
        i = i + 1;
        proof {
            if pred(i - 1) {
                assert(spec_kept(i as int, pred) =~= spec_kept(i as int - 1, pred).push(
                    (i - 1) as usize,
                ));
            } else {
                assert(spec_kept(i as int, pred) =~= spec_kept(i as int - 1, pred));
            }
        }
    }
    proof {
        lemma_kept_props(nrows as int, pred);
    }
    let sorted = sort_idxs_desc(&kept, d1);
    proof {
        lemma_screen_idxs_exact(nrows as int, pred, d1@);
        assert forall|k: int| 0 <= k < sorted@.len() implies (#[trigger] sorted@[k] as int)
            < table.spec_row_count() by {
            assert(sorted@.contains(sorted@[k]));
        }
    }
    let out = select_rows(table, &sorted);
    proof {
        lemma_screen_output(*table, out, sorted@, "DGR 1Y"@);
        let okeys = spec_float_col(out, "DGR 1Y"@);
        assert forall|p: int, q: int|
            0 <= p <= q < okeys.len() implies spec_rank(#[trigger] okeys[p]) >= spec_rank(
            #[trigger] okeys[q],
        ) by {
            assert(spec_key_at(d1@, sorted@[p]) >= spec_key_at(d1@, sorted@[q]));
        }
        assert forall|p: int| 0 <= p < sorted@.len() implies spec_growth_keep(
            d1@[#[trigger] sorted@[p] as int],
            d5@[sorted@[p] as int],
            d10@[sorted@[p] as int],
            min_growth_rate as int,
        ) by {
            assert(sorted@.contains(sorted@[p]));
            assert(pred(sorted@[p] as int));
        }
    }
    Ok(out)
}

} // verus!
