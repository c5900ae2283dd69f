//! Column lookup, row filtering, stable sorting and row selection on tables.
//!
//! A screening stage works in three steps: find the columns it needs, collect
//! the indices of the rows its predicate keeps (in row order), sort those
//! indices by a key column — descending, missing keys last, equal keys in row
//! order — and assemble a fresh table from the selected rows.  The input
//! table is never mutated.

use vstd::prelude::*;

use crate::table::AnalysisError;
use crate::table::ColData;
use crate::table::Column;
use crate::table::Table;
use crate::table::spec_col_len;

verus! {

/// First column named `name`, if any.
pub open spec fn spec_find_col(cols: Seq<Column>, name: Seq<char>) -> Option<int>
    decreases cols.len(),
{
    if cols.len() == 0 {
        None
    } else if cols[0].name@ == name {
        Some(0int)
    } else {
        match spec_find_col(cols.drop_first(), name) {
            None => None,
            Some(i) => Some(i + 1),
        }
    }
}

/// A found column index is a valid position.
pub proof fn lemma_find_col_nonneg(cols: Seq<Column>, name: Seq<char>)
    ensures
        spec_find_col(cols, name) matches Some(i) ==> 0 <= i < cols.len(),
    decreases cols.len(),
{
    if cols.len() > 0 {
        lemma_find_col_nonneg(cols.drop_first(), name);
    }
}

/// Helper: if no suffix starting in `k..len` begins with a match, the search
/// from `k` fails.
proof fn lemma_find_col_none_rec(cols: Seq<Column>, name: Seq<char>, k: int)
    requires
        0 <= k <= cols.len(),
        forall|m: int|
            k <= m < cols.len() ==> spec_find_col(#[trigger] cols.skip(m), name) != Some(0int),
    ensures
        spec_find_col(cols.skip(k), name) is None,
    decreases cols.len() - k,
{
    if k < cols.len() {
        lemma_find_col_none_rec(cols, name, k + 1);
        assert(cols.skip(k).drop_first() =~= cols.skip(k + 1));
        assert(cols.skip(k)[0] == cols[k]);
        if cols[k].name@ == name {
            assert(spec_find_col(cols.skip(k), name) == Some(0int));
        }
    }
}

/// Helper for `lemma_find_col_at`, walking the prefix.
proof fn lemma_find_col_at_rec(cols: Seq<Column>, name: Seq<char>, ci: int, k: int)
    requires
        0 <= k <= ci < cols.len(),
        cols[ci].name@ == name,
        forall|m: int| 0 <= m < ci ==> spec_find_col(#[trigger] cols.skip(m), name) != Some(0int),
    ensures
        spec_find_col(cols.skip(k), name) == Some(ci - k),
    decreases ci - k,
{
    assert(cols.skip(k)[0] == cols[k]);
    assert(cols.skip(k).drop_first() =~= cols.skip(k + 1));
    if k == ci {
        assert(spec_find_col(cols.skip(k), name) == Some(0int));
    } else {
        lemma_find_col_at_rec(cols, name, ci, k + 1);
        if cols[k].name@ == name {
            assert(spec_find_col(cols.skip(k), name) == Some(0int));
            assert(false);
        }
    }
}

/// A match at `ci`, with no earlier suffix matching first, makes `ci` the
/// found index.
proof fn lemma_find_col_at(cols: Seq<Column>, name: Seq<char>, ci: int)
    requires
        0 <= ci < cols.len(),
        cols[ci].name@ == name,
        forall|k: int| 0 <= k < ci ==> spec_find_col(#[trigger] cols.skip(k), name) != Some(0int),
    ensures
        spec_find_col(cols, name) == Some(ci),
{
    lemma_find_col_at_rec(cols, name, ci, 0);
    assert(cols.skip(0) =~= cols);
}

/// Finds the first column named `name`.
#[verifier::loop_isolation(false)]
pub fn find_col(t: &Table, name: &str) -> (r: Option<usize>)
    ensures
        r matches Some(ix) ==> ix < t.cols@.len() && spec_find_col(t.cols@, name@) == Some(
            ix as int,
        ),
        r is None ==> spec_find_col(t.cols@, name@) is None,
{
    let wanted: String = name.to_owned();
    let n = t.cols.len();
    let mut ci: usize = 0;
    while ci < n
        invariant
            0 <= ci <= n,
            forall|k: int|
                0 <= k < ci ==> spec_find_col(#[trigger] t.cols@.skip(k), name@) != Some(0int),
        decreases n - ci,
    {
        if t.cols[ci].name == wanted {
            proof {
                lemma_find_col_at(t.cols@, name@, ci as int);
            }
            return Some(ci);
        }
        proof {
            assert(t.cols@.skip(ci as int)[0] == t.cols@[ci as int]);
            lemma_find_col_nonneg(t.cols@.skip(ci as int).drop_first(), name@);
            assert(spec_find_col(t.cols@.skip(ci as int), name@) != Some(0int));
        }
        ci = ci + 1;
    }
    proof {
        lemma_find_col_none_rec(t.cols@, name@, 0);
        assert(t.cols@.skip(0) =~= t.cols@);
    }
    None
}

/// The numeric entries of a column (empty for a text column).
pub open spec fn spec_floats_of(c: Column) -> Seq<Option<i64>> {
    match c.data {
        ColData::Floats(v) => v@,
        ColData::Texts(_) => Seq::empty(),
    }
}

/// Whether the table has a numeric column named `name` (first name match).
pub open spec fn spec_has_float_col(t: Table, name: Seq<char>) -> bool {
    spec_find_col(t.cols@, name) matches Some(j) && t.cols@[j].data is Floats
}

/// The numeric entries of the column named `name`.
pub open spec fn spec_float_col(t: Table, name: Seq<char>) -> Seq<Option<i64>> {
    match spec_find_col(t.cols@, name) {
        Some(j) => spec_floats_of(t.cols@[j]),
        None => Seq::empty(),
    }
}

/// Finds the numeric column named `name`, or reports it missing.  A column of
/// the right name but of text type counts as missing: the screens need the
/// numbers.
pub fn float_col<'a>(t: &'a Table, name: &str) -> (r: Result<&'a Vec<Option<i64>>, AnalysisError>)
    ensures
        r is Ok <==> spec_has_float_col(*t, name@),
        r matches Ok(v) ==> v@ == spec_float_col(*t, name@) && v@.len() == (match spec_find_col(
            t.cols@,
            name@,
        ) {
            Some(j) => spec_col_len(t.cols@[j]),
            None => 0nat,
        }),
        r matches Err(e) ==> e matches AnalysisError::MissingColumn(n) && n@ == name@,
{
    match find_col(t, name) {
        None => Err(AnalysisError::MissingColumn(name.to_owned())),
        Some(j) => match &t.cols[j].data {
            ColData::Floats(v) => Ok(v),
            ColData::Texts(_) => Err(AnalysisError::MissingColumn(name.to_owned())),
        },
    }
}

/// The text entries of a column (empty for a numeric column).
pub open spec fn spec_texts_of(c: Column) -> Seq<Option<String>> {
    match c.data {
        ColData::Texts(v) => v@,
        ColData::Floats(_) => Seq::empty(),
    }
}

/// Whether the table has a text column named `name` (first name match).
pub open spec fn spec_has_text_col(t: Table, name: Seq<char>) -> bool {
    spec_find_col(t.cols@, name) matches Some(j) && t.cols@[j].data is Texts
}

/// The text entries of the column named `name`.
pub open spec fn spec_text_col(t: Table, name: Seq<char>) -> Seq<Option<String>> {
    match spec_find_col(t.cols@, name) {
        Some(j) => spec_texts_of(t.cols@[j]),
        None => Seq::empty(),
    }
}

/// Finds the text column named `name`, or reports it missing.
pub fn text_col<'a>(t: &'a Table, name: &str) -> (r: Result<&'a Vec<Option<String>>, AnalysisError>)
    ensures
        r is Ok <==> spec_has_text_col(*t, name@),
        r matches Ok(v) ==> v@ == spec_text_col(*t, name@) && v@.len() == (match spec_find_col(
            t.cols@,
            name@,
        ) {
            Some(j) => spec_col_len(t.cols@[j]),
            None => 0nat,
        }),
        r matches Err(e) ==> e matches AnalysisError::MissingColumn(n) && n@ == name@,
{
    match find_col(t, name) {
        None => Err(AnalysisError::MissingColumn(name.to_owned())),
        Some(j) => match &t.cols[j].data {
            ColData::Texts(v) => Ok(v),
            ColData::Floats(_) => Err(AnalysisError::MissingColumn(name.to_owned())),
        },
    }
}

/// First index in `i..n` that the predicate accepts.
pub open spec fn spec_first_from(n: int, i: int, pred: spec_fn(int) -> bool) -> Option<int>
    decreases n - i,
{
    if i < 0 || i >= n {
        None
    } else if pred(i) {
        Some(i)
    } else {
        spec_first_from(n, i + 1, pred)
    }
}

/// Sort rank of an optional key: a missing key ranks below every value.
pub open spec fn spec_rank(o: Option<i64>) -> int {
    match o {
        Some(v) => v as int,
        None => i64::MIN - 1,
    }
}

/// Sort rank of row `idx` in the key column (missing outside the column).
pub open spec fn spec_key_at(keys: Seq<Option<i64>>, idx: usize) -> int {
    if (idx as int) < keys.len() {
        spec_rank(keys[idx as int])
    } else {
        spec_rank(None)
    }
}

/// Whether the rows listed by `s` are in non-increasing key order.
pub open spec fn spec_sorted_desc(s: Seq<usize>, keys: Seq<Option<i64>>) -> bool {
    forall|p: int, q: int|
        0 <= p <= q < s.len() ==> spec_key_at(keys, #[trigger] s[p]) >= spec_key_at(
            keys,
            #[trigger] s[q],
        )
}

/// Whether `spec_rank(a) >= spec_rank(b)`.
fn rank_ge(a: Option<i64>, b: Option<i64>) -> (r: bool)
    ensures
        r == (spec_rank(a) >= spec_rank(b)),
{
    match (a, b) {
        (Some(x), Some(y)) => x >= y,
        (Some(_), None) => true,
        (None, None) => true,
        (None, Some(_)) => false,
    }
}

/// Stable insertion of row `x` into the descending list `s`: after every row
/// whose key is at least `x`'s.
pub open spec fn spec_insert_desc(s: Seq<usize>, x: usize, keys: Seq<Option<i64>>) -> Seq<usize>
    decreases s.len(),
{
    if s.len() == 0 {
        seq![x]
    } else if spec_key_at(keys, s[0]) >= spec_key_at(keys, x) {
        seq![s[0]] + spec_insert_desc(s.drop_first(), x, keys)
    } else {
        seq![x] + s
    }
}

/// Stable descending insertion sort of the rows listed by `s`.
pub open spec fn spec_sort_desc(s: Seq<usize>, keys: Seq<Option<i64>>) -> Seq<usize>
    decreases s.len(),
{
    if s.len() == 0 {
        Seq::empty()
    } else {
        spec_insert_desc(spec_sort_desc(s.drop_last(), keys), s.last(), keys)
    }
}

/// Inserting at the stable position is one sequence insertion.
proof fn lemma_insert_desc_at(s: Seq<usize>, x: usize, keys: Seq<Option<i64>>, p: int)
    requires
        0 <= p <= s.len(),
        forall|i: int| 0 <= i < p ==> spec_key_at(keys, #[trigger] s[i]) >= spec_key_at(keys, x),
        p < s.len() ==> spec_key_at(keys, s[p]) < spec_key_at(keys, x),
    ensures
        spec_insert_desc(s, x, keys) =~= s.insert(p, x),
    decreases s.len(),
{
    if s.len() == 0 {
        assert(spec_insert_desc(s, x, keys) =~= s.insert(0, x));
    } else if p == 0 {
        assert(spec_insert_desc(s, x, keys) =~= s.insert(0, x));
    } else {
        lemma_insert_desc_at(s.drop_first(), x, keys, p - 1);
        assert(seq![s[0]] + s.drop_first().insert(p - 1, x) =~= s.insert(p, x));
    }
}

/// The inserted row is a member of the result.
proof fn lemma_insert_desc_contains_x(s: Seq<usize>, x: usize, keys: Seq<Option<i64>>)
    ensures
        spec_insert_desc(s, x, keys).contains(x),
    decreases s.len(),
{
    let r = spec_insert_desc(s, x, keys);
    if s.len() == 0 {
        assert(r[0] == x);
    } else if spec_key_at(keys, s[0]) >= spec_key_at(keys, x) {
        lemma_insert_desc_contains_x(s.drop_first(), x, keys);
        let rr = spec_insert_desc(s.drop_first(), x, keys);
        let k = choose|k: int| 0 <= k < rr.len() && rr[k] == x;
        assert(r[k + 1] == x);
    } else {
        assert(r[0] == x);
    }
}

/// What stable insertion preserves: length, order, membership, distinctness.
#[verifier::rlimit(50)]
pub proof fn lemma_insert_desc_props(s: Seq<usize>, x: usize, keys: Seq<Option<i64>>)
    requires
        spec_sorted_desc(s, keys),
    ensures
        spec_insert_desc(s, x, keys).len() == s.len() + 1,
        spec_sorted_desc(spec_insert_desc(s, x, keys), keys),
        forall|y: usize| spec_insert_desc(s, x, keys).contains(y) <==> (s.contains(y) || y == x),
        s.no_duplicates() && !s.contains(x) ==> spec_insert_desc(s, x, keys).no_duplicates(),
    decreases s.len(),
{
    let r = spec_insert_desc(s, x, keys);
    if s.len() == 0 {
        assert(forall|y: usize| r.contains(y) <==> (s.contains(y) || y == x)) by {
            assert(forall|y: usize| s.contains(y) ==> false);
            assert(r[0] == x);
        }
    } else if spec_key_at(keys, s[0]) >= spec_key_at(keys, x) {
        let rest = s.drop_first();
        assert(spec_sorted_desc(rest, keys)) by {
            assert(forall|i: int| 0 <= i < rest.len() ==> rest[i] == s[i + 1]);
        }
        lemma_insert_desc_props(rest, x, keys);
        let rr = spec_insert_desc(rest, x, keys);
        assert(r =~= seq![s[0]] + rr);
        assert(r.len() == s.len() + 1);
        // order: the head is at least every element of the tail
        assert(spec_sorted_desc(r, keys)) by {
            assert(forall|q: int|
                0 <= q < rr.len() ==> spec_key_at(keys, #[trigger] rr[q]) <= spec_key_at(
                    keys,
                    s[0],
                )) by {
                assert(forall|q: int|
                    0 <= q < rr.len() ==> rr.contains(#[trigger] rr[q]));
                assert(forall|y: usize|
                    #[trigger] rest.contains(y) ==> spec_key_at(keys, y) <= spec_key_at(
                        keys,
                        s[0],
                    )) by {
                    assert(forall|i: int|
                        0 <= i < rest.len() ==> #[trigger] rest[i] == s[i + 1]);
                }
            }
            assert(forall|p: int, q: int|
                1 <= p <= q < r.len() ==> spec_key_at(keys, #[trigger] r[p]) >= spec_key_at(
                    keys,
                    #[trigger] r[q],
                )) by {
                assert(forall|i: int| 1 <= i < r.len() ==> r[i] == rr[i - 1]);
            }
        }
        // membership
        assert forall|y: usize| #[trigger] rest.contains(y) implies s.contains(y) by {
            let i = choose|i: int| 0 <= i < rest.len() && rest[i] == y;
            assert(s[i + 1] == y);
        }
        assert forall|y: usize| #[trigger] rr.contains(y) implies r.contains(y) by {
            let i = choose|i: int| 0 <= i < rr.len() && rr[i] == y;
            assert(r[i + 1] == y);
        }
        assert forall|y: usize| #[trigger] r.contains(y) implies (s.contains(y) || y == x) by {
            let i = choose|i: int| 0 <= i < r.len() && r[i] == y;
            if i == 0 {
                assert(s[0] == y);
                assert(s.contains(y));
            } else {
                assert(rr[i - 1] == y);
                assert(rr.contains(y));
                assert(rest.contains(y) || y == x);
                if rest.contains(y) {
                    let k = choose|k: int| 0 <= k < rest.len() && rest[k] == y;
                    assert(s[k + 1] == y);
                    assert(s.contains(y));
                }
            }
        }
        assert forall|y: usize| #[trigger] s.contains(y) implies r.contains(y) by {
            let i = choose|i: int| 0 <= i < s.len() && s[i] == y;
            if i == 0 {
                assert(r[0] == y);
            } else {
                assert(rest[i - 1] == y);
                assert(rest.contains(y));
                assert(rr.contains(y));
            }
        }
        assert(r.contains(x)) by {
            lemma_insert_desc_contains_x(s, x, keys);
        }
        assert(forall|y: usize| r.contains(y) <==> (s.contains(y) || y == x));
        // distinctness
        if s.no_duplicates() && !s.contains(x) {
            assert(rest.no_duplicates()) by {
                assert(forall|i: int| 0 <= i < rest.len() ==> rest[i] == s[i + 1]);
            }
            assert(!rest.contains(x)) by {
                assert(forall|i: int| 0 <= i < rest.len() ==> rest[i] == s[i + 1]);
            }
            assert(!rr.contains(s[0])) by {
                assert(!rest.contains(s[0])) by {
                    assert(forall|i: int| 0 <= i < rest.len() ==> rest[i] == s[i + 1]);
                }
                assert(s[0] != x) by {
                    assert(s.contains(s[0]));
                }
            }
            assert(r.no_duplicates()) by {
                assert(forall|i: int| 1 <= i < r.len() ==> r[i] == rr[i - 1]);
                assert(forall|i: int, j: int|
                    0 <= i < j < r.len() ==> r[i] != r[j]) by {
                    assert(forall|i: int|
                        1 <= i < r.len() ==> rr.contains(#[trigger] r[i])) by {
                        assert(forall|i: int| 1 <= i < r.len() ==> r[i] == rr[i - 1]);
                    }
                }
            }
        }
    } else {
        assert(r =~= seq![x] + s);
        assert(forall|i: int| 1 <= i < r.len() ==> r[i] == s[i - 1]);
        assert(spec_sorted_desc(r, keys)) by {
            assert(forall|q: int|
                0 <= q < s.len() ==> spec_key_at(keys, #[trigger] s[q]) <= spec_key_at(keys, s[0]));
            assert(spec_key_at(keys, s[0]) < spec_key_at(keys, x));
        }
        assert(r[0] == x);
        assert forall|y: usize| #[trigger] r.contains(y) implies (s.contains(y) || y == x) by {
            let i = choose|i: int| 0 <= i < r.len() && r[i] == y;
            if i >= 1 {
                assert(s[i - 1] == y);
                assert(s.contains(y));
            }
        }
        assert forall|y: usize| #[trigger] s.contains(y) implies r.contains(y) by {
            let i = choose|i: int| 0 <= i < s.len() && s[i] == y;
            assert(r[i + 1] == y);
        }
        assert(forall|y: usize| r.contains(y) <==> (s.contains(y) || y == x));
        if s.no_duplicates() && !s.contains(x) {
            assert(r.no_duplicates()) by {
                assert(forall|i: int|
                    1 <= i < r.len() ==> s.contains(#[trigger] r[i])) by {
                    assert(forall|i: int| 1 <= i < r.len() ==> r[i] == s[i - 1]);
                }
            }
        }
    }
}

/// What the stable sort preserves: length, membership, distinctness; and
/// what it establishes: non-increasing key order.
pub proof fn lemma_sort_desc_props(s: Seq<usize>, keys: Seq<Option<i64>>)
    ensures
        spec_sort_desc(s, keys).len() == s.len(),
        spec_sorted_desc(spec_sort_desc(s, keys), keys),
        forall|y: usize| spec_sort_desc(s, keys).contains(y) <==> s.contains(y),
        s.no_duplicates() ==> spec_sort_desc(s, keys).no_duplicates(),
    decreases s.len(),
{
    if s.len() > 0 {
        let butlast = s.drop_last();
        lemma_sort_desc_props(butlast, keys);
        let sorted = spec_sort_desc(butlast, keys);
        lemma_insert_desc_props(sorted, s.last(), keys);
        assert(forall|y: usize| s.contains(y) <==> (butlast.contains(y) || y == s.last())) by {
            assert(forall|i: int| 0 <= i < butlast.len() ==> butlast[i] == s[i]);
            assert(forall|y: usize|
                #[trigger] s.contains(y) ==> (butlast.contains(y) || y == s.last())) by {
                assert(forall|i: int| 0 <= i < s.len() - 1 ==> s[i] == butlast[i]);
            }
        }
        if s.no_duplicates() {
            assert(butlast.no_duplicates()) by {
                assert(forall|i: int| 0 <= i < butlast.len() ==> butlast[i] == s[i]);
            }
            assert(!butlast.contains(s.last())) by {
                assert(forall|i: int| 0 <= i < butlast.len() ==> butlast[i] == s[i]);
            }
            assert(!sorted.contains(s.last()));
        }
    }
}

/// Finds the stable insertion position of row `x` in the descending list.
#[verifier::loop_isolation(false)]
fn insert_pos(res: &Vec<usize>, keys: &Vec<Option<i64>>, x: usize) -> (p: usize)
    ensures
        p <= res@.len(),
        forall|i: int|
            0 <= i < p ==> spec_key_at(keys@, #[trigger] res@[i]) >= spec_key_at(keys@, x),
        p < res@.len() ==> spec_key_at(keys@, res@[p as int]) < spec_key_at(keys@, x),
{
    let n = res.len();
    let kn = keys.len();
    let kx: Option<i64> = if x < kn {
        keys[x]
    } else {
        None
    };
    let mut p: usize = 0;
    while p < n
        invariant
            0 <= p <= n,
            forall|i: int|
                0 <= i < p ==> spec_key_at(keys@, #[trigger] res@[i]) >= spec_key_at(keys@, x),
        decreases n - p,
    {
        let ri = res[p];
        let kr: Option<i64> = if ri < kn {
            keys[ri]
        } else {
            None
        };
        if !rank_ge(kr, kx) {
            return p;
        }
        p = p + 1;
    }
    p
}

/// Sorts the listed rows by the key column, descending, missing keys last,
/// equal keys kept in their given order.
#[verifier::loop_isolation(false)]
pub fn sort_idxs_desc(idxs: &Vec<usize>, keys: &Vec<Option<i64>>) -> (r: Vec<usize>)
    ensures
        r@ == spec_sort_desc(idxs@, keys@),
{
    let mut res: Vec<usize> = Vec::new();
    let n = idxs.len();
    let mut k: usize = 0;
    while k < n
        invariant
            0 <= k <= n,
            res@ == spec_sort_desc(idxs@.take(k as int), keys@),
        decreases n - k,
    {
        let x = idxs[k];
        let p = insert_pos(&res, keys, x);
        proof {
            lemma_insert_desc_at(res@, x, keys@, p as int);
        }
        res.insert(p, x);
        k = k + 1;
        proof {
            assert(idxs@.take(k as int).drop_last() =~= idxs@.take(k as int - 1));
            assert(idxs@.take(k as int).last() == idxs@[k as int - 1]);
        }
    }
    proof {
        assert(idxs@.take(n as int) =~= idxs@);
    }
    res
}

/// Whether `cout` holds, in listed order, the rows of `cin` named by `idxs`.
pub open spec fn spec_col_selected(cin: Column, cout: Column, idxs: Seq<usize>) -> bool {
    &&& cout.name@ == cin.name@
    &&& match cin.data {
        ColData::Floats(a) => cout.data matches ColData::Floats(b) && b@.len() == idxs.len() && (
        forall|k: int| 0 <= k < idxs.len() ==> b@[k] == a@[#[trigger] idxs[k] as int]),
        ColData::Texts(a) => cout.data matches ColData::Texts(b) && b@.len() == idxs.len() && (
        forall|k: int| 0 <= k < idxs.len() ==> b@[k] == a@[#[trigger] idxs[k] as int]),
    }
}

/// Whether `out` holds, in listed order, exactly the rows of `inp` named by
/// `idxs`, column for column.
pub open spec fn spec_is_selection(inp: Table, out: Table, idxs: Seq<usize>) -> bool {
    &&& out.cols@.len() == inp.cols@.len()
    &&& forall|j: int|
        0 <= j < inp.cols@.len() ==> spec_col_selected(inp.cols@[j], #[trigger] out.cols@[j], idxs)
}

/// Builds a fresh table from the listed rows, in listed order.
#[verifier::loop_isolation(false)]
pub fn select_rows(t: &Table, idxs: &Vec<usize>) -> (r: Table)
    requires
        t.wf(),
        forall|k: int| 0 <= k < idxs@.len() ==> #[trigger] idxs@[k] < t.spec_row_count(),
    ensures
        spec_is_selection(*t, r, idxs@),
        r.wf(),
        r.cols@.len() > 0 ==> r.spec_row_count() == idxs@.len(),
{
    let mut cols: Vec<Column> = Vec::new();
    let ncols = t.cols.len();
    let nsel = idxs.len();
    let mut j: usize = 0;
    while j < ncols
        invariant
            0 <= j <= ncols,
            cols@.len() == j,
            forall|m: int|
                0 <= m < j ==> spec_col_selected(t.cols@[m], #[trigger] cols@[m], idxs@),
            forall|m: int| 0 <= m < j ==> spec_col_len(#[trigger] cols@[m]) == idxs@.len(),
        decreases ncols - j,
    {
        let c = &t.cols[j];
        proof {
            assert(spec_col_len(t.cols@[j as int]) == t.spec_row_count());
        }
        let newdata: ColData = match &c.data {
            ColData::Floats(a) => {
                let mut b: Vec<Option<i64>> = Vec::new();
                let mut k: usize = 0;
                while k < nsel
                    invariant
                        0 <= k <= nsel,
                        b@.len() == k,
                        a@ == (match t.cols@[j as int].data {
                            ColData::Floats(v) => v@,
                            ColData::Texts(_) => Seq::<Option<i64>>::empty(),
                        }),
                        forall|q: int| 0 <= q < k ==> b@[q] == a@[#[trigger] idxs@[q] as int],
                    decreases nsel - k,
                {
                    b.push(a[idxs[k]]);
                    k = k + 1;
                }
                ColData::Floats(b)
            },
            ColData::Texts(a) => {
                let mut b: Vec<Option<String>> = Vec::new();
                let mut k: usize = 0;
                while k < nsel
                    invariant
                        0 <= k <= nsel,
                        b@.len() == k,
                        a@ == (match t.cols@[j as int].data {
                            ColData::Texts(v) => v@,
                            ColData::Floats(_) => Seq::<Option<String>>::empty(),
                        }),
                        forall|q: int| 0 <= q < k ==> b@[q] == a@[#[trigger] idxs@[q] as int],
                    decreases nsel - k,
                {
                    let v: Option<String> = match &a[idxs[k]] {
                        Some(s) => Some(s.clone()),
                        None => None,
                    };
                    b.push(v);
                    k = k + 1;
                }
                ColData::Texts(b)
            },
        };
        cols.push(Column { name: c.name.clone(), data: newdata });
        j = j + 1;
    }
    let r = Table { cols };
    proof {
        if r.cols@.len() > 0 {
            assert(spec_col_len(r.cols@[0]) == idxs@.len());
        }
    }
    r
}

} // verus!
